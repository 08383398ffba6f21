//! The entry header: the record a caller fills in, and the sixty bytes that
//! stand for it in an archive.
//!
//! The sixty bytes are six left-justified, space-padded ASCII fields and a
//! two-byte end marker:
//!
//! | bytes  | field      | radix   |
//! |--------|------------|---------|
//! | 0..16  | identifier |         |
//! | 16..28 | mtime      | decimal |
//! | 28..34 | uid        | decimal |
//! | 34..40 | gid        | decimal |
//! | 40..48 | mode       | octal   |
//! | 48..58 | size       | decimal |
//! | 58..60 | `` ` `` and newline |  |

use crate::bytes::{append_bytes, copy_range, same_bytes};
use crate::error::ArError;
use crate::numeric::{
    field_of, fits_field, format_field, lemma_parse_field_of, parse_field, parse_field_spec,
    spaces, spaces_trimmed_len, trim_spaces, within_u64, Radix, SPACE,
};
use vstd::prelude::*;
use vstd::slice::slice_subrange;

verus! {

/// The length of an entry header.
pub const HEADER_LEN: usize = 60;

/// The width of the identifier field.
pub const IDENTIFIER_WIDTH: usize = 16;

/// Where the modification time begins.
pub const MTIME_START: usize = 16;

/// Where the owner's user id begins.
pub const UID_START: usize = 28;

/// Where the owner's group id begins.
pub const GID_START: usize = 34;

/// Where the mode begins.
pub const MODE_START: usize = 40;

/// Where the size begins.
pub const SIZE_START: usize = 48;

/// Where the end marker begins.
pub const END_START: usize = 58;

/// The first byte of the end marker, a backtick.
pub const END_FIRST: u8 = 0x60;

/// The second byte of the end marker, a newline.
pub const END_SECOND: u8 = 0x0A;

/// Variants of the Unix archive format.
#[derive(Clone, Copy, Debug, PartialEq, Eq, Structural)]
pub enum Variant {
    /// Used by Debian package files; allows only short filenames.
    Common,
    /// Used by BSD `ar` (and OS X); backwards-compatible with common variant.
    BSD,
    /// Used by GNU `ar` (and Windows); incompatible with common variant.
    GNU,
}

/// What a header holds, as mathematical values.
pub struct HeaderView {
    /// The file identifier.
    pub identifier: Seq<u8>,
    /// The last modification time, in seconds since the epoch.
    pub mtime: u64,
    /// The owner's user id.
    pub uid: u32,
    /// The owner's group id.
    pub gid: u32,
    /// The mode bits.
    pub mode: u32,
    /// The length of the payload in bytes.
    pub size: u64,
}

/// Representation of an archive entry header.
#[derive(Clone, Debug, PartialEq, Eq)]
pub struct Header {
    identifier: Vec<u8>,
    mtime: u64,
    uid: u32,
    gid: u32,
    mode: u32,
    size: u64,
}

impl View for Header {
    type V = HeaderView;

    closed spec fn view(&self) -> HeaderView {
        HeaderView {
            identifier: self.identifier@,
            mtime: self.mtime,
            uid: self.uid,
            gid: self.gid,
            mode: self.mode,
            size: self.size,
        }
    }
}

/// Whether the numbers of `h`, with `wire_size` for the size, all fit the
/// fields that the header has for them.
pub open spec fn numbers_fit(h: HeaderView, wire_size: nat) -> bool {
    &&& fits_field(h.mtime as nat, Radix::Decimal, (UID_START - MTIME_START) as nat)
    &&& fits_field(h.uid as nat, Radix::Decimal, (GID_START - UID_START) as nat)
    &&& fits_field(h.gid as nat, Radix::Decimal, (MODE_START - GID_START) as nat)
    &&& fits_field(h.mode as nat, Radix::Octal, (SIZE_START - MODE_START) as nat)
    &&& fits_field(wire_size, Radix::Decimal, (END_START - SIZE_START) as nat)
}

/// The sixty bytes that hold the identifier field `field`, the numbers of
/// `h`, and `wire_size` as the size.
pub open spec fn record_of(field: Seq<u8>, h: HeaderView, wire_size: nat) -> Seq<u8>
    recommends
        field.len() <= IDENTIFIER_WIDTH,
        numbers_fit(h, wire_size),
{
    field + spaces((IDENTIFIER_WIDTH - field.len()) as nat) + field_of(
        h.mtime as nat,
        Radix::Decimal,
        (UID_START - MTIME_START) as nat,
    ) + field_of(h.uid as nat, Radix::Decimal, (GID_START - UID_START) as nat) + field_of(
        h.gid as nat,
        Radix::Decimal,
        (MODE_START - GID_START) as nat,
    ) + field_of(h.mode as nat, Radix::Octal, (SIZE_START - MODE_START) as nat) + field_of(
        wire_size,
        Radix::Decimal,
        (END_START - SIZE_START) as nat,
    ) + seq![END_FIRST, END_SECOND]
}

/// What encoding gives: the sixty bytes, or the reason why there are none.
/// An identifier field of more than sixteen bytes is an unsupported long
/// name; a number with more digits than its field has bytes is malformed.
pub open spec fn encode_record_spec(field: Seq<u8>, h: HeaderView, wire_size: nat) -> Result<
    Seq<u8>,
    ArError,
> {
    if field.len() > IDENTIFIER_WIDTH {
        Err(ArError::UnsupportedLongName)
    } else if !numbers_fit(h, wire_size) {
        Err(ArError::MalformedField)
    } else {
        Ok(record_of(field, h, wire_size))
    }
}

/// The number in the field `raw[from..to]`, where it is one that a `u64` holds.
pub open spec fn field_number(raw: Seq<u8>, from: int, to: int, radix: Radix) -> Option<u64> {
    within_u64(parse_field_spec(raw.subrange(from, to), radix))
}

/// What decoding sixty bytes gives. The identifier is the identifier field
/// without its trailing spaces, the size is the size field as it stands.
pub open spec fn decode_record_spec(raw: Seq<u8>) -> Result<HeaderView, ArError> {
    if raw.len() != HEADER_LEN {
        Err(ArError::TruncatedHeader)
    } else if raw[END_START as int] != END_FIRST || raw[END_START + 1] != END_SECOND {
        Err(ArError::MalformedField)
    } else {
        let mtime = field_number(raw, MTIME_START as int, UID_START as int, Radix::Decimal);
        let uid = field_number(raw, UID_START as int, GID_START as int, Radix::Decimal);
        let gid = field_number(raw, GID_START as int, MODE_START as int, Radix::Decimal);
        let mode = field_number(raw, MODE_START as int, SIZE_START as int, Radix::Octal);
        let size = field_number(raw, SIZE_START as int, END_START as int, Radix::Decimal);
        if mtime is None || uid is None || gid is None || mode is None || size is None {
            Err(ArError::MalformedField)
        } else if uid->0 > u32::MAX || gid->0 > u32::MAX || mode->0 > u32::MAX {
            Err(ArError::MalformedField)
        } else {
            Ok(
                HeaderView {
                    identifier: trim_spaces(raw.subrange(0, IDENTIFIER_WIDTH as int)),
                    mtime: mtime->0,
                    uid: uid->0 as u32,
                    gid: gid->0 as u32,
                    mode: mode->0 as u32,
                    size: size->0,
                },
            )
        }
    }
}

/// Whether `r` is the header that `s` describes, or the same error.
pub open spec fn same_header(r: Result<Header, ArError>, s: Result<HeaderView, ArError>) -> bool {
    match r {
        Ok(h) => s == Ok::<HeaderView, ArError>(h@),
        Err(e) => s == Err::<HeaderView, ArError>(e),
    }
}

/// Trailing spaces after bytes that do not end in a space are all that
/// trimming takes away.
pub proof fn lemma_trim_spaces_after(s: Seq<u8>, count: nat)
    requires
        s.len() == 0 || s.last() != SPACE,
    ensures
        trim_spaces(s + spaces(count)) == s,
    decreases count,
{
    let padded = s + spaces(count);
    if count == 0 {
        assert(padded =~= s);
    } else {
        assert(padded.last() == SPACE);
        assert(padded.drop_last() =~= s + spaces((count - 1) as nat));
        lemma_trim_spaces_after(s, (count - 1) as nat);
    }
}

/// Decoding what was encoded gives the identifier field and the numbers
/// back, where the field does not end in a space.
pub proof fn lemma_decode_record_of(field: Seq<u8>, h: HeaderView, wire_size: nat)
    requires
        field.len() <= IDENTIFIER_WIDTH,
        field.len() == 0 || field.last() != SPACE,
        numbers_fit(h, wire_size),
        wire_size <= u64::MAX,
    ensures
        record_of(field, h, wire_size).len() == HEADER_LEN,
        decode_record_spec(record_of(field, h, wire_size)) == Ok::<HeaderView, ArError>(
            HeaderView { identifier: field, size: wire_size as u64, ..h },
        ),
{
    let raw = record_of(field, h, wire_size);
    let mtime = field_of(h.mtime as nat, Radix::Decimal, 12);
    let uid = field_of(h.uid as nat, Radix::Decimal, 6);
    let gid = field_of(h.gid as nat, Radix::Decimal, 6);
    let mode = field_of(h.mode as nat, Radix::Octal, 8);
    let size = field_of(wire_size, Radix::Decimal, 10);
    lemma_parse_field_of(h.mtime as nat, Radix::Decimal, 12);
    lemma_parse_field_of(h.uid as nat, Radix::Decimal, 6);
    lemma_parse_field_of(h.gid as nat, Radix::Decimal, 6);
    lemma_parse_field_of(h.mode as nat, Radix::Octal, 8);
    lemma_parse_field_of(wire_size, Radix::Decimal, 10);
    let padded = field + spaces((16 - field.len()) as nat);
    assert(raw.len() == 60);
    assert(raw.subrange(0, 16) =~= padded);
    assert(raw.subrange(16, 28) =~= mtime);
    assert(raw.subrange(28, 34) =~= uid);
    assert(raw.subrange(34, 40) =~= gid);
    assert(raw.subrange(40, 48) =~= mode);
    assert(raw.subrange(48, 58) =~= size);
    assert(raw[58] == END_FIRST && raw[59] == END_SECOND);
    lemma_trim_spaces_after(field, (16 - field.len()) as nat);
}

/// Writes the sixty bytes of a header: `field` in the identifier field, the
/// numbers of `header`, and `wire_size` in the size field.
pub fn encode_record(field: &[u8], header: &Header, wire_size: u64) -> (r: Result<
    Vec<u8>,
    ArError,
>)
    ensures
        same_bytes(r, encode_record_spec(field@, header@, wire_size as nat)),
{
    if field.len() > IDENTIFIER_WIDTH {
        return Err(ArError::UnsupportedLongName);
    }
    let mtime = format_field(header.mtime, Radix::Decimal, UID_START - MTIME_START);
    let uid = format_field(header.uid as u64, Radix::Decimal, GID_START - UID_START);
    let gid = format_field(header.gid as u64, Radix::Decimal, MODE_START - GID_START);
    let mode = format_field(header.mode as u64, Radix::Octal, SIZE_START - MODE_START);
    let size = format_field(wire_size, Radix::Decimal, END_START - SIZE_START);
    match (mtime, uid, gid, mode, size) {
        (Some(mtime), Some(uid), Some(gid), Some(mode), Some(size)) => {
            let mut out: Vec<u8> = Vec::new();
            append_bytes(&mut out, field);
            while out.len() < IDENTIFIER_WIDTH
                invariant
                    field@.len() <= out@.len() <= IDENTIFIER_WIDTH,
                    out@ == field@ + spaces((out@.len() - field@.len()) as nat),
                decreases IDENTIFIER_WIDTH - out@.len(),
            {
                out.push(SPACE);
                assert(out@ =~= field@ + spaces((out@.len() - field@.len()) as nat));
            }
            append_bytes(&mut out, mtime.as_slice());
            append_bytes(&mut out, uid.as_slice());
            append_bytes(&mut out, gid.as_slice());
            append_bytes(&mut out, mode.as_slice());
            append_bytes(&mut out, size.as_slice());
            out.push(END_FIRST);
            out.push(END_SECOND);
            assert(out@ =~= record_of(field@, header@, wire_size as nat));
            Ok(out)
        },
        _ => Err(ArError::MalformedField),
    }
}

impl Header {
    /// Creates a header with the given file identifier and size, and all
    /// other fields set to zero.
    pub fn new(identifier: Vec<u8>, size: u64) -> (header: Header)
        ensures
            header@ == (HeaderView {
                identifier: identifier@,
                mtime: 0,
                uid: 0,
                gid: 0,
                mode: 0,
                size: size,
            }),
    {
        Header { identifier, mtime: 0, uid: 0, gid: 0, mode: 0, size }
    }

    /// Returns the file identifier.
    pub fn identifier(&self) -> (identifier: &[u8])
        ensures
            identifier@ == self@.identifier,
    {
        self.identifier.as_slice()
    }

    /// Sets the file identifier.
    pub fn set_identifier(&mut self, identifier: Vec<u8>)
        ensures
            final(self)@ == (HeaderView { identifier: identifier@, ..old(self)@ }),
    {
        self.identifier = identifier;
    }

    /// Returns the last modification time in Unix time format.
    pub fn mtime(&self) -> (mtime: u64)
        ensures
            mtime == self@.mtime,
    {
        self.mtime
    }

    /// Sets the last modification time in Unix time format.
    pub fn set_mtime(&mut self, mtime: u64)
        ensures
            final(self)@ == (HeaderView { mtime: mtime, ..old(self)@ }),
    {
        self.mtime = mtime;
    }

    /// Returns the value of the owner's user ID field.
    pub fn uid(&self) -> (uid: u32)
        ensures
            uid == self@.uid,
    {
        self.uid
    }

    /// Sets the value of the owner's user ID field.
    pub fn set_uid(&mut self, uid: u32)
        ensures
            final(self)@ == (HeaderView { uid: uid, ..old(self)@ }),
    {
        self.uid = uid;
    }

    /// Returns the value of the group's user ID field.
    pub fn gid(&self) -> (gid: u32)
        ensures
            gid == self@.gid,
    {
        self.gid
    }

    /// Sets the value of the group's user ID field.
    pub fn set_gid(&mut self, gid: u32)
        ensures
            final(self)@ == (HeaderView { gid: gid, ..old(self)@ }),
    {
        self.gid = gid;
    }

    /// Returns the mode bits for this file.
    pub fn mode(&self) -> (mode: u32)
        ensures
            mode == self@.mode,
    {
        self.mode
    }

    /// Sets the mode bits for this file.
    pub fn set_mode(&mut self, mode: u32)
        ensures
            final(self)@ == (HeaderView { mode: mode, ..old(self)@ }),
    {
        self.mode = mode;
    }

    /// Returns the length of the file, in bytes.
    pub fn size(&self) -> (size: u64)
        ensures
            size == self@.size,
    {
        self.size
    }

    /// Sets the length of the file, in bytes.
    pub fn set_size(&mut self, size: u64)
        ensures
            final(self)@ == (HeaderView { size: size, ..old(self)@ }),
    {
        self.size = size;
    }

    /// A header that holds what this one holds.
    pub fn duplicate(&self) -> (copy: Header)
        ensures
            copy@ == self@,
    {
        let identifier = copy_range(self.identifier.as_slice(), 0, self.identifier.len());
        assert(identifier@ =~= self.identifier@);
        Header {
            identifier,
            mtime: self.mtime,
            uid: self.uid,
            gid: self.gid,
            mode: self.mode,
            size: self.size,
        }
    }

    /// Reads the sixty bytes of a header. The identifier of the result is
    /// the identifier field without its trailing spaces: what it names is
    /// for the dialect to say. Fails with `TruncatedHeader` where `raw` is
    /// not sixty bytes long, and with `MalformedField` where the end marker
    /// is missing or a numeric field holds anything but digits and padding.
    pub fn decode(raw: &[u8]) -> (r: Result<Header, ArError>)
        ensures
            same_header(r, decode_record_spec(raw@)),
    {
        if raw.len() != HEADER_LEN {
            return Err(ArError::TruncatedHeader);
        }
        if raw[END_START] != END_FIRST || raw[END_START + 1] != END_SECOND {
            return Err(ArError::MalformedField);
        }
        let mtime = parse_field(slice_subrange(raw, MTIME_START, UID_START), Radix::Decimal);
        let uid = parse_field(slice_subrange(raw, UID_START, GID_START), Radix::Decimal);
        let gid = parse_field(slice_subrange(raw, GID_START, MODE_START), Radix::Decimal);
        let mode = parse_field(slice_subrange(raw, MODE_START, SIZE_START), Radix::Octal);
        let size = parse_field(slice_subrange(raw, SIZE_START, END_START), Radix::Decimal);
        match (mtime, uid, gid, mode, size) {
            (Some(mtime), Some(uid), Some(gid), Some(mode), Some(size)) => {
                if uid > u32::MAX as u64 || gid > u32::MAX as u64 || mode > u32::MAX as u64 {
                    return Err(ArError::MalformedField);
                }
                let name = slice_subrange(raw, 0, IDENTIFIER_WIDTH);
                let len: usize = spaces_trimmed_len(name);
                let identifier = copy_range(name, 0, len);
                assert(identifier@ =~= trim_spaces(raw@.subrange(0, IDENTIFIER_WIDTH as int)));
                Ok(
                    Header {
                        identifier,
                        mtime,
                        uid: uid as u32,
                        gid: gid as u32,
                        mode: mode as u32,
                        size,
                    },
                )
            },
            _ => Err(ArError::MalformedField),
        }
    }
}

} // verus!
