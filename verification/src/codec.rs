//! A header as it stands in an archive: its sixty bytes and, where BSD
//! escapes the name, the name after them.

use crate::bytes::{append_bytes, contains_byte, copy_range, same_bytes};
use crate::error::ArError;
use crate::header::{
    decode_record_spec, encode_record, encode_record_spec, Header, HeaderView, Variant,
    HEADER_LEN, IDENTIFIER_WIDTH,
};
use crate::name::{
    decode_identifier_spec, encode_identifier_spec, extension_of, lookup_name, lookup_spec,
    NameRef, NameRefView,
};
use crate::numeric::{lemma_digits_len, power, Radix, SPACE};
use vstd::prelude::*;
use vstd::slice::slice_subrange;

verus! {

/// The number that the size field holds for `h`: the length of the payload
/// and of what the dialect puts in front of it.
pub open spec fn wire_size(variant: Variant, h: HeaderView) -> nat {
    (h.size + extension_of(variant, h.identifier).len()) as nat
}

/// The sixty bytes for `h` with `resolved` in the identifier field.
pub open spec fn encode_spec(h: HeaderView, variant: Variant, resolved: Seq<u8>) -> Result<
    Seq<u8>,
    ArError,
> {
    encode_record_spec(resolved, h, wire_size(variant, h))
}

/// The header `h` as a dialect writes it, `offset` being where the name
/// stands in the name table: the sixty bytes, then the name where BSD
/// escapes it.
pub open spec fn wire_header_spec(variant: Variant, h: HeaderView, offset: u64) -> Result<
    Seq<u8>,
    ArError,
> {
    match encode_identifier_spec(variant, h.identifier, offset) {
        Err(e) => Err(e),
        Ok(field) => match encode_spec(h, variant, field) {
            Err(e) => Err(e),
            Ok(record) => Ok(record + extension_of(variant, h.identifier)),
        },
    }
}

/// The header at the beginning of `bytes` as a dialect reads it, and the
/// number of bytes that it takes up. `table` is the name table read so far.
///
/// Fewer than sixty bytes are a truncated header, and so is a BSD name that
/// reaches beyond `bytes`. A BSD name longer than the size field allows is a
/// malformed field.
pub open spec fn read_header_spec(variant: Variant, bytes: Seq<u8>, table: Seq<u8>) -> Result<
    (HeaderView, nat),
    ArError,
> {
    if bytes.len() < HEADER_LEN {
        Err(ArError::TruncatedHeader)
    } else {
        match decode_record_spec(bytes.take(HEADER_LEN as int)) {
            Err(e) => Err(e),
            Ok(raw) => match decode_identifier_spec(variant, raw.identifier) {
                Err(e) => Err(e),
                Ok(NameRefView::Inline(name)) => Ok(
                    (HeaderView { identifier: name, ..raw }, HEADER_LEN as nat),
                ),
                Ok(NameRefView::Extended(len)) => if len > raw.size {
                    Err(ArError::MalformedField)
                } else if bytes.len() < HEADER_LEN + len {
                    Err(ArError::TruncatedHeader)
                } else {
                    Ok(
                        (
                            HeaderView {
                                identifier: bytes.subrange(HEADER_LEN as int, HEADER_LEN + len),
                                size: (raw.size - len) as u64,
                                ..raw
                            },
                            (HEADER_LEN + len) as nat,
                        ),
                    )
                },
                Ok(NameRefView::TableOffset(offset)) => match lookup_spec(table, offset) {
                    Err(e) => Err(e),
                    Ok(name) => Ok((HeaderView { identifier: name, ..raw }, HEADER_LEN as nat)),
                },
            },
        }
    }
}

/// Whether `r` is what `s` describes, or the same error.
pub open spec fn same_read(
    r: Result<(Header, usize), ArError>,
    s: Result<(HeaderView, nat), ArError>,
) -> bool {
    match r {
        Ok((h, used)) => s == Ok::<(HeaderView, nat), ArError>((h@, used as nat)),
        Err(e) => s == Err::<(HeaderView, nat), ArError>(e),
    }
}

/// No number beyond a `u64` fits the size field.
pub proof fn lemma_size_field_is_small(n: nat)
    requires
        n > u64::MAX,
    ensures
        !crate::numeric::fits_field(n, Radix::Decimal, 10),
{
    lemma_digits_len(n, Radix::Decimal, 10);
    assert(power(Radix::Decimal, 10) == 10_000_000_000) by {
        reveal_with_fuel(power, 11);
    }
}

impl Header {
    /// Whether `variant` puts the identifier of this header in front of
    /// the payload.
    pub fn is_extended(&self, variant: Variant) -> (yes: bool)
        ensures
            yes == (extension_of(variant, self@.identifier).len() > 0),
            !yes ==> extension_of(variant, self@.identifier) == Seq::<u8>::empty(),
            yes ==> extension_of(variant, self@.identifier) == self@.identifier,
    {
        let name = self.identifier();
        let inline = name.len() <= IDENTIFIER_WIDTH && !contains_byte(name, SPACE);
        variant == Variant::BSD && !inline
    }

    /// Writes the sixty bytes of this header with `resolved` in the
    /// identifier field. The size field holds the size of this header and,
    /// where `variant` puts the name in front of the payload, the length of
    /// the name.
    ///
    /// Fails with `UnsupportedLongName` where `resolved` is longer than the
    /// identifier field, and with `MalformedField` where a number has more
    /// digits than its field has bytes.
    pub fn encode(&self, variant: Variant, resolved: &[u8]) -> (r: Result<Vec<u8>, ArError>)
        ensures
            same_bytes(r, encode_spec(self@, variant, resolved@)),
    {
        if resolved.len() > IDENTIFIER_WIDTH {
            return Err(ArError::UnsupportedLongName);
        }
        let extra: u64 = if self.is_extended(variant) {
            self.identifier().len() as u64
        } else {
            0
        };
        match self.size().checked_add(extra) {
            Some(size) => encode_record(resolved, self, size),
            None => {
                proof {
                    lemma_size_field_is_small(wire_size(variant, self@));
                }
                Err(ArError::MalformedField)
            },
        }
    }

    /// Writes this header as it stands in an archive of the given dialect:
    /// the sixty bytes and, where BSD escapes the name, the name. `offset`
    /// is where the name stands in the GNU name table.
    pub fn write(&self, variant: Variant, offset: u64) -> (r: Result<Vec<u8>, ArError>)
        ensures
            same_bytes(r, wire_header_spec(variant, self@, offset)),
    {
        let field = match variant.encode_identifier(self.identifier(), offset) {
            Ok(field) => field,
            Err(e) => {
                return Err(e);
            },
        };
        let mut out = match self.encode(variant, field.as_slice()) {
            Ok(out) => out,
            Err(e) => {
                return Err(e);
            },
        };
        if self.is_extended(variant) {
            append_bytes(&mut out, self.identifier());
        } else {
            assert(out@ + Seq::<u8>::empty() =~= out@);
        }
        Ok(out)
    }

    /// Reads the header at the beginning of `bytes`, and says how many bytes
    /// it takes up: see `read_header_spec`.
    pub fn read(variant: Variant, bytes: &[u8], table: &[u8]) -> (r: Result<
        (Header, usize),
        ArError,
    >)
        ensures
            same_read(r, read_header_spec(variant, bytes@, table@)),
    {
        if bytes.len() < HEADER_LEN {
            return Err(ArError::TruncatedHeader);
        }
        let raw = slice_subrange(bytes, 0, HEADER_LEN);
        assert(raw@ =~= bytes@.take(HEADER_LEN as int));
        let mut header = match Header::decode(raw) {
            Ok(header) => header,
            Err(e) => {
                return Err(e);
            },
        };
        let name_ref = match variant.decode_identifier(header.identifier()) {
            Ok(n) => n,
            Err(e) => {
                return Err(e);
            },
        };
        match name_ref {
            NameRef::Inline(name) => {
                header.set_identifier(name);
                Ok((header, HEADER_LEN))
            },
            NameRef::Extended(len) => {
                if len > header.size() {
                    return Err(ArError::MalformedField);
                }
                if ((bytes.len() - HEADER_LEN) as u64) < len {
                    return Err(ArError::TruncatedHeader);
                }
                let end: usize = HEADER_LEN + len as usize;
                let name = copy_range(bytes, HEADER_LEN, end);
                let size = header.size() - len;
                header.set_identifier(name);
                header.set_size(size);
                Ok((header, end))
            },
            NameRef::TableOffset(offset) => match lookup_name(table, offset) {
                Ok(name) => {
                    header.set_identifier(name);
                    Ok((header, HEADER_LEN))
                },
                Err(e) => Err(e),
            },
        }
    }
}

} // verus!
