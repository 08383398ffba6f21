//! Writing archives. A builder does no output of its own: each call hands
//! back the bytes that the caller is to append to the archive.
//!
//! `Builder` writes the Common and BSD dialects, in which every entry stands
//! for itself. `GnuBuilder` writes the GNU dialect, whose name table comes
//! before the first entry; so it is made from the identifiers of all the
//! entries that will be appended.

use crate::bytes::{append_bytes, bytes_equal, contains_byte, same_bytes};
use crate::codec::{wire_header_spec, wire_size};
use crate::error::ArError;
use crate::header::{
    encode_record, encode_record_spec, Header, HeaderView, Variant,
};
use crate::name::{
    gnu_inline, gnu_name_table_id, table_entry, table_of, GNU_INLINE_MAX, NEWLINE, SLASH,
};
use crate::numeric::SPACE;
use vstd::prelude::*;

verus! {

/// The eight bytes `!<arch>` and newline that begin an archive.
pub open spec fn magic() -> Seq<u8> {
    seq![0x21u8, 0x3C, 0x61, 0x72, 0x63, 0x68, 0x3E, 0x0A]
}

/// What follows a payload of `len` bytes: a newline where `len` is odd.
pub open spec fn padding_of(len: nat) -> Seq<u8> {
    if len % 2 == 1 {
        seq![NEWLINE]
    } else {
        Seq::empty()
    }
}

/// The record of one entry: its header as the dialect writes it, the
/// payload, and the padding. The size of the header must be the length of
/// the payload; otherwise the size field is malformed.
pub open spec fn entry_spec(variant: Variant, h: HeaderView, offset: u64, data: Seq<u8>) -> Result<
    Seq<u8>,
    ArError,
> {
    if data.len() != h.size {
        Err(ArError::MalformedField)
    } else {
        match wire_header_spec(variant, h, offset) {
            Err(e) => Err(e),
            Ok(written) => Ok(written + data + padding_of(wire_size(variant, h))),
        }
    }
}

/// What comes before the first record: the magic bytes, unless they were
/// written already.
pub open spec fn preamble(started: bool) -> Seq<u8> {
    if started {
        Seq::empty()
    } else {
        magic()
    }
}

/// A header with no name and every number zero.
pub open spec fn blank_header() -> HeaderView {
    HeaderView { identifier: Seq::empty(), mtime: 0, uid: 0, gid: 0, mode: 0, size: 0 }
}

/// The state of a `Builder`.
pub struct BuilderView {
    /// The dialect that the builder writes.
    pub variant: Variant,
    /// Whether the magic bytes were handed out.
    pub started: bool,
}

/// The header of an entry as a `Builder` hands it out. A builder for GNU
/// has no name table, so a name that GNU does not write inline is
/// unexpected.
pub open spec fn builder_header_spec(b: BuilderView, h: HeaderView) -> Result<Seq<u8>, ArError> {
    if b.variant == Variant::GNU && !gnu_inline(h.identifier) {
        Err(ArError::UnexpectedIdentifier)
    } else {
        match wire_header_spec(b.variant, h, 0) {
            Err(e) => Err(e),
            Ok(written) => Ok(preamble(b.started) + written),
        }
    }
}

/// The bytes that a `Builder` hands out for an entry.
pub open spec fn builder_append_spec(b: BuilderView, h: HeaderView, data: Seq<u8>) -> Result<
    Seq<u8>,
    ArError,
> {
    if b.variant == Variant::GNU && !gnu_inline(h.identifier) {
        Err(ArError::UnexpectedIdentifier)
    } else {
        match entry_spec(b.variant, h, 0, data) {
            Err(e) => Err(e),
            Ok(record) => Ok(preamble(b.started) + record),
        }
    }
}

/// Whether `name` is one that GNU writes inline.
pub fn is_gnu_inline(name: &[u8]) -> (yes: bool)
    ensures
        yes == gnu_inline(name@),
{
    name.len() <= GNU_INLINE_MAX && !contains_byte(name, SPACE) && !contains_byte(name, SLASH)
}

/// The eight bytes that begin an archive.
pub fn magic_bytes() -> (bytes: Vec<u8>)
    ensures
        bytes@ == magic(),
{
    let mut bytes: Vec<u8> = Vec::new();
    bytes.push(0x21);
    bytes.push(0x3C);
    bytes.push(0x61);
    bytes.push(0x72);
    bytes.push(0x63);
    bytes.push(0x68);
    bytes.push(0x3E);
    bytes.push(0x0A);
    assert(bytes@ =~= magic());
    bytes
}

/// Puts after `out` what follows a payload: a newline where its length is odd.
fn append_padding(out: &mut Vec<u8>, odd: bool)
    ensures
        final(out)@ == old(out)@ + if odd {
            seq![NEWLINE]
        } else {
            Seq::empty()
        },
{
    if odd {
        out.push(NEWLINE);
    }
    assert(out@ =~= old(out)@ + if odd {
        seq![NEWLINE]
    } else {
        Seq::empty()
    });
}

/// Whether the number that the size field holds for `header` is odd.
fn has_odd_wire_size(variant: Variant, header: &Header) -> (odd: bool)
    ensures
        odd == (wire_size(variant, header@) % 2 == 1),
{
    let extra: usize = if header.is_extended(variant) {
        header.identifier().len()
    } else {
        0
    };
    (header.size() % 2 + (extra % 2) as u64) % 2 == 1
}

/// A builder of archives in the Common or the BSD dialect.
#[derive(Clone, Copy, Debug, PartialEq, Eq)]
pub struct Builder {
    variant: Variant,
    started: bool,
}

impl View for Builder {
    type V = BuilderView;

    closed spec fn view(&self) -> BuilderView {
        BuilderView { variant: self.variant, started: self.started }
    }
}

impl Builder {
    /// A builder for a new archive of the given dialect.
    pub fn new(variant: Variant) -> (builder: Builder)
        ensures
            builder@ == (BuilderView { variant: variant, started: false }),
    {
        Builder { variant, started: false }
    }

    /// The dialect that this builder writes.
    pub fn variant(&self) -> (variant: Variant)
        ensures
            variant == self@.variant,
    {
        self.variant
    }

    /// Whether the magic bytes were handed out.
    pub fn started(&self) -> (started: bool)
        ensures
            started == self@.started,
    {
        self.started
    }

    /// Begins an entry whose payload the caller writes itself: hands back
    /// the magic bytes, where this is the first entry, and the header. The
    /// caller then writes as many bytes of payload as the header says, and
    /// what `close_entry` hands back.
    pub fn open_entry(&mut self, header: &Header) -> (r: Result<Vec<u8>, ArError>)
        ensures
            same_bytes(r, builder_header_spec(old(self)@, header@)),
            final(self)@.variant == old(self)@.variant,
            final(self)@.started == (old(self)@.started || r is Ok),
    {
        if self.variant == Variant::GNU && !is_gnu_inline(header.identifier()) {
            return Err(ArError::UnexpectedIdentifier);
        }
        let written = match header.write(self.variant, 0) {
            Ok(written) => written,
            Err(e) => {
                return Err(e);
            },
        };
        let mut out: Vec<u8> = if self.started {
            Vec::new()
        } else {
            magic_bytes()
        };
        append_bytes(&mut out, written.as_slice());
        self.started = true;
        assert(out@ =~= preamble(old(self)@.started) + written@);
        Ok(out)
    }

    /// Ends an entry: hands back the padding that follows its payload.
    pub fn close_entry(&self, header: &Header) -> (padding: Vec<u8>)
        ensures
            padding@ == padding_of(wire_size(self@.variant, header@)),
    {
        let mut out: Vec<u8> = Vec::new();
        append_padding(&mut out, has_odd_wire_size(self.variant, header));
        assert(out@ =~= padding_of(wire_size(self@.variant, header@)));
        out
    }

    /// Appends an entry: hands back the magic bytes, where this is the
    /// first entry, the header, the payload `data` and the padding. Fails,
    /// and hands back nothing, where the header cannot be written or its
    /// size is not the length of `data`.
    pub fn append(&mut self, header: &Header, data: &[u8]) -> (r: Result<Vec<u8>, ArError>)
        ensures
            same_bytes(r, builder_append_spec(old(self)@, header@, data@)),
            final(self)@.variant == old(self)@.variant,
            final(self)@.started == (old(self)@.started || r is Ok),
    {
        if self.variant == Variant::GNU && !is_gnu_inline(header.identifier()) {
            return Err(ArError::UnexpectedIdentifier);
        }
        if data.len() as u64 != header.size() {
            return Err(ArError::MalformedField);
        }
        let written = match header.write(self.variant, 0) {
            Ok(written) => written,
            Err(e) => {
                return Err(e);
            },
        };
        let mut out: Vec<u8> = if self.started {
            Vec::new()
        } else {
            magic_bytes()
        };
        append_bytes(&mut out, written.as_slice());
        append_bytes(&mut out, data);
        append_padding(&mut out, has_odd_wire_size(self.variant, header));
        self.started = true;
        assert(out@ =~= preamble(old(self)@.started) + (written@ + data@ + padding_of(
            wire_size(self@.variant, header@),
        )));
        Ok(out)
    }
}

/// The identifiers of `v` as mathematical values.
pub open spec fn names_of(v: Seq<Vec<u8>>) -> Seq<Seq<u8>> {
    v.map_values(|name: Vec<u8>| name@)
}

/// The first position at or after `from` at which `ids` holds `name`.
pub open spec fn first_index(ids: Seq<Seq<u8>>, name: Seq<u8>, from: int) -> Option<int>
    decreases ids.len() - from,
{
    if from >= ids.len() {
        None
    } else if ids[from] == name {
        Some(from)
    } else {
        first_index(ids, name, from + 1)
    }
}

/// The state of a `GnuBuilder`.
pub struct GnuBuilderView {
    /// The identifiers that the builder was made from.
    pub identifiers: Seq<Seq<u8>>,
    /// Whether the magic bytes and the name table were handed out.
    pub started: bool,
}

/// What a `GnuBuilder` hands out before its first record: the magic bytes
/// and, where any name stands in the name table, the table as a record of
/// its own, named `//`. Nothing once it has started.
pub open spec fn gnu_preamble(b: GnuBuilderView) -> Result<Seq<u8>, ArError> {
    let table = table_of(b.identifiers);
    if b.started {
        Ok(Seq::empty())
    } else if table.len() == 0 {
        Ok(magic())
    } else {
        match encode_record_spec(gnu_name_table_id(), blank_header(), table.len()) {
            Err(e) => Err(e),
            Ok(record) => Ok(magic() + record + table + padding_of(table.len())),
        }
    }
}

/// Where the name table of `b` holds the identifier at `index`.
pub open spec fn gnu_offset(b: GnuBuilderView, index: int) -> nat {
    table_of(b.identifiers.take(index)).len()
}

/// The header of an entry as a `GnuBuilder` hands it out, after what comes
/// before the first record. An identifier that the builder was not made from
/// is unexpected.
pub open spec fn gnu_header_spec(b: GnuBuilderView, h: HeaderView) -> Result<Seq<u8>, ArError> {
    match first_index(b.identifiers, h.identifier, 0) {
        None => Err(ArError::UnexpectedIdentifier),
        Some(index) => match gnu_preamble(b) {
            Err(e) => Err(e),
            Ok(before) => match wire_header_spec(Variant::GNU, h, gnu_offset(b, index) as u64) {
                Err(e) => Err(e),
                Ok(written) => Ok(before + written),
            },
        },
    }
}

/// The bytes that a `GnuBuilder` hands out for an entry. An identifier that
/// the builder was not made from is unexpected.
pub open spec fn gnu_append_spec(b: GnuBuilderView, h: HeaderView, data: Seq<u8>) -> Result<
    Seq<u8>,
    ArError,
> {
    match first_index(b.identifiers, h.identifier, 0) {
        None => Err(ArError::UnexpectedIdentifier),
        Some(index) => match gnu_preamble(b) {
            Err(e) => Err(e),
            Ok(before) => match entry_spec(Variant::GNU, h, gnu_offset(b, index) as u64, data) {
                Err(e) => Err(e),
                Ok(record) => Ok(before + record),
            },
        },
    }
}

/// A builder of archives in the GNU dialect.
#[derive(Debug)]
pub struct GnuBuilder {
    identifiers: Vec<Vec<u8>>,
    offsets: Vec<u64>,
    table: Vec<u8>,
    started: bool,
}

impl View for GnuBuilder {
    type V = GnuBuilderView;

    closed spec fn view(&self) -> GnuBuilderView {
        GnuBuilderView { identifiers: names_of(self.identifiers@), started: self.started }
    }
}

impl GnuBuilder {
    /// The offsets and the table are those of the identifiers.
    #[verifier::type_invariant]
    spec fn well_formed(self) -> bool {
        &&& self.offsets@.len() == self.identifiers@.len()
        &&& self.table@ == table_of(names_of(self.identifiers@))
        &&& forall|i: int|
            0 <= i < self.offsets@.len() ==> #[trigger] self.offsets@[i] == table_of(
                names_of(self.identifiers@).take(i),
            ).len()
    }

    /// A builder for a new archive that will hold entries with the given
    /// identifiers. The name table is laid out here, once and for all.
    pub fn new(identifiers: Vec<Vec<u8>>) -> (builder: GnuBuilder)
        ensures
            builder@ == (GnuBuilderView { identifiers: names_of(identifiers@), started: false }),
    {
        let ghost names = names_of(identifiers@);
        let mut offsets: Vec<u64> = Vec::new();
        let mut table: Vec<u8> = Vec::new();
        let mut i: usize = 0;
        assert(names.take(0) =~= Seq::<Seq<u8>>::empty());
        while i < identifiers.len()
            invariant
                i <= identifiers@.len(),
                names == names_of(identifiers@),
                offsets@.len() == i,
                table@ == table_of(names.take(i as int)),
                forall|j: int|
                    0 <= j < i ==> #[trigger] offsets@[j] == table_of(names.take(j)).len(),
            decreases identifiers@.len() - i,
        {
            let name = identifiers[i].as_slice();
            offsets.push(table.len() as u64);
            proof {
                assert(names.take(i + 1).drop_last() =~= names.take(i as int));
                assert(names.take(i + 1).last() == name@);
            }
            if !is_gnu_inline(name) {
                append_bytes(&mut table, name);
                table.push(SLASH);
                table.push(NEWLINE);
                assert(table@ =~= table_of(names.take(i as int)) + table_entry(name@));
            }
            i = i + 1;
        }
        assert(names.take(i as int) =~= names);
        GnuBuilder { identifiers, offsets, table, started: false }
    }

    /// Whether the magic bytes and the name table were handed out.
    pub fn started(&self) -> (started: bool)
        ensures
            started == self@.started,
    {
        self.started
    }

    /// The payload of the name table.
    pub fn name_table(&self) -> (table: &[u8])
        ensures
            table@ == table_of(self@.identifiers),
    {
        proof {
            use_type_invariant(self);
        }
        self.table.as_slice()
    }

    /// The position of the first identifier, from those this builder was
    /// made from, that is `name`.
    pub fn position(&self, name: &[u8]) -> (r: Option<usize>)
        ensures
            match r {
                Some(index) => index < self@.identifiers.len() && first_index(
                    self@.identifiers,
                    name@,
                    0,
                ) == Some(index as int),
                None => first_index(self@.identifiers, name@, 0) is None,
            },
    {
        let ghost names = names_of(self.identifiers@);
        let mut i: usize = 0;
        while i < self.identifiers.len()
            invariant
                i <= self.identifiers@.len(),
                names == names_of(self.identifiers@),
                first_index(names, name@, 0) == first_index(names, name@, i as int),
            decreases self.identifiers@.len() - i,
        {
            if bytes_equal(self.identifiers[i].as_slice(), name) {
                assert(names[i as int] == name@);
                return Some(i);
            }
            assert(names[i as int] != name@);
            i = i + 1;
        }
        None
    }

    /// The bytes that come before the first record.
    fn preamble_bytes(&self) -> (r: Result<Vec<u8>, ArError>)
        ensures
            same_bytes(r, gnu_preamble(self@)),
    {
        proof {
            use_type_invariant(self);
        }
        if self.started {
            return Ok(Vec::new());
        }
        let mut out = magic_bytes();
        if self.table.len() == 0 {
            return Ok(out);
        }
        let mut field: Vec<u8> = Vec::new();
        field.push(SLASH);
        field.push(SLASH);
        assert(field@ =~= gnu_name_table_id());
        let blank = Header::new(Vec::new(), 0);
        assert(blank@ == blank_header());
        let record = match encode_record(field.as_slice(), &blank, self.table.len() as u64) {
            Ok(record) => record,
            Err(e) => {
                return Err(e);
            },
        };
        append_bytes(&mut out, record.as_slice());
        append_bytes(&mut out, self.table.as_slice());
        append_padding(&mut out, self.table.len() % 2 == 1);
        Ok(out)
    }

    /// Begins an entry whose payload the caller writes itself: hands back,
    /// where this is the first entry, the magic bytes and the name table,
    /// then the header. The caller then writes as many bytes of payload as
    /// the header says, and what `close_entry` hands back.
    pub fn open_entry(&mut self, header: &Header) -> (r: Result<Vec<u8>, ArError>)
        ensures
            same_bytes(r, gnu_header_spec(old(self)@, header@)),
            final(self)@.identifiers == old(self)@.identifiers,
            final(self)@.started == (old(self)@.started || r is Ok),
    {
        proof {
            use_type_invariant(&*self);
        }
        let index = match self.position(header.identifier()) {
            Some(index) => index,
            None => {
                return Err(ArError::UnexpectedIdentifier);
            },
        };
        assert(names_of(self.identifiers@).len() == self.identifiers@.len());
        let offset: u64 = self.offsets[index];
        assert(offset == gnu_offset(self@, index as int));
        let mut out = match self.preamble_bytes() {
            Ok(out) => out,
            Err(e) => {
                return Err(e);
            },
        };
        let written = match header.write(Variant::GNU, offset) {
            Ok(written) => written,
            Err(e) => {
                return Err(e);
            },
        };
        append_bytes(&mut out, written.as_slice());
        self.started = true;
        Ok(out)
    }

    /// Ends an entry: hands back the padding that follows its payload.
    pub fn close_entry(&self, header: &Header) -> (padding: Vec<u8>)
        ensures
            padding@ == padding_of(header@.size as nat),
    {
        let mut out: Vec<u8> = Vec::new();
        append_padding(&mut out, header.size() % 2 == 1);
        assert(out@ =~= padding_of(header@.size as nat));
        out
    }

    /// Appends an entry: hands back, where this is the first entry, the
    /// magic bytes and the name table, then the header, the payload `data`
    /// and the padding. Fails, and hands back nothing, where the identifier
    /// of the header is not among those this builder was made from, where
    /// the header or the name table cannot be written, or where the size of
    /// the header is not the length of `data`.
    pub fn append(&mut self, header: &Header, data: &[u8]) -> (r: Result<Vec<u8>, ArError>)
        ensures
            same_bytes(r, gnu_append_spec(old(self)@, header@, data@)),
            final(self)@.identifiers == old(self)@.identifiers,
            final(self)@.started == (old(self)@.started || r is Ok),
    {
        proof {
            use_type_invariant(&*self);
        }
        let index = match self.position(header.identifier()) {
            Some(index) => index,
            None => {
                return Err(ArError::UnexpectedIdentifier);
            },
        };
        assert(names_of(self.identifiers@).len() == self.identifiers@.len());
        let offset: u64 = self.offsets[index];
        assert(offset == gnu_offset(self@, index as int));
        let mut out = match self.preamble_bytes() {
            Ok(out) => out,
            Err(e) => {
                return Err(e);
            },
        };
        if data.len() as u64 != header.size() {
            return Err(ArError::MalformedField);
        }
        let written = match header.write(Variant::GNU, offset) {
            Ok(written) => written,
            Err(e) => {
                return Err(e);
            },
        };
        let ghost before = out@;
        append_bytes(&mut out, written.as_slice());
        append_bytes(&mut out, data);
        append_padding(&mut out, header.size() % 2 == 1);
        self.started = true;
        assert(out@ =~= before + (written@ + data@ + padding_of(
            wire_size(Variant::GNU, header@),
        )));
        Ok(out)
    }
}

} // verus!
