//! Reading archives, one piece at a time. A reader does no input of its
//! own: it says how many bytes it wants next, the caller gets them from
//! wherever the archive is and feeds them in, and the reader says what they
//! were.
//!
//! The reader walks through these phases:
//!
//! ```text
//! AtMagic -> BetweenEntries -> StreamingEntry -> BetweenEntries -> ... -> Exhausted
//! ```
//!
//! Between two entries it may pass through `ReadingName`, for a name that
//! BSD put in front of the payload, through `ReadingPseudo`, for a name
//! table or a symbol table, and through `SkippingPad`, for the newline after
//! a payload of odd length. An error leaves it in `Failed`.

use crate::bytes::{bytes_equal, copy_range};
use crate::error::ArError;
use crate::header::{decode_record_spec, Header, HeaderView, Variant, HEADER_LEN};
use crate::name::{
    decode_identifier_spec, lookup_name, lookup_spec, pseudo_entry_spec, NameRef, NameRefView,
    PseudoEntry,
};
use crate::symbols::{
    bsd_symbols_spec, decode_bsd_symbols, decode_gnu_symbols, gnu_symbols_spec, symbols_view,
    ByteOrder, Symbol, SymbolView,
};
use crate::writer::{magic, magic_bytes};
use vstd::prelude::*;
use vstd::slice::slice_subrange;

verus! {

/// Where a reader stands in the archive.
#[derive(Clone, Copy, Debug, PartialEq, Eq, Structural)]
pub enum Phase {
    /// Before the eight magic bytes.
    AtMagic,
    /// Before a header, or at the end of the archive.
    BetweenEntries,
    /// Before a name of `len` bytes that BSD put in front of the payload.
    /// The numbers are those of the header that announced it; `size` is
    /// its size field, which counts the name.
    ReadingName { len: u64, mtime: u64, uid: u32, gid: u32, mode: u32, size: u64 },
    /// Before the payload, `size` bytes long, of a pseudo-entry.
    ReadingPseudo { kind: PseudoEntry, size: u64 },
    /// Inside the payload of an entry, `remaining` bytes before its end.
    /// `padded` says whether a newline follows the payload.
    StreamingEntry { remaining: u64, padded: bool },
    /// Before the newline that follows a payload of odd length.
    SkippingPad,
    /// At the end of the archive.
    Exhausted,
    /// After an error.
    Failed,
}

/// What a reader wants next.
#[derive(Clone, Copy, Debug, PartialEq, Eq, Structural)]
pub enum Demand {
    /// This many bytes, all at once. Fewer mean that the archive ends here.
    Exactly(u64),
    /// At least one and at most this many bytes of an entry's payload. None
    /// mean that the archive ends here.
    UpTo(u64),
    /// Nothing: the reader is done.
    Nothing,
}

/// What the bytes that were fed in turned out to be.
#[derive(Debug, PartialEq, Eq)]
pub enum Step {
    /// Something that the reader kept to itself, or payload of the entry
    /// that was handed out last.
    More,
    /// The header of an entry. Its payload comes next.
    Entry(Header),
    /// The end of the archive.
    End,
}

/// A `Step` as mathematical values.
pub enum StepView {
    /// Something that the reader kept to itself, or payload.
    More,
    /// The header of an entry.
    Entry(HeaderView),
    /// The end of the archive.
    End,
}

impl View for Step {
    type V = StepView;

    open spec fn view(&self) -> StepView {
        match self {
            Step::More => StepView::More,
            Step::Entry(header) => StepView::Entry(header@),
            Step::End => StepView::End,
        }
    }
}

/// The state of a reader.
pub struct ReaderView {
    /// The dialect of the archive.
    pub variant: Variant,
    /// The byte order of a BSD symbol table.
    pub order: ByteOrder,
    /// Where the reader stands.
    pub phase: Phase,
    /// The payload of the name table, empty until one was read.
    pub table: Seq<u8>,
    /// The symbols of the symbol table, none until one was read.
    pub symbols: Seq<SymbolView>,
}

/// A reader before the first byte.
pub open spec fn initial(variant: Variant, order: ByteOrder) -> ReaderView {
    ReaderView {
        variant,
        order,
        phase: Phase::AtMagic,
        table: Seq::empty(),
        symbols: Seq::empty(),
    }
}

/// What a reader wants in a phase.
pub open spec fn demand_of(phase: Phase) -> Demand {
    match phase {
        Phase::AtMagic => Demand::Exactly(8),
        Phase::BetweenEntries => Demand::Exactly(HEADER_LEN as u64),
        Phase::ReadingName { len, .. } => Demand::Exactly(len),
        Phase::ReadingPseudo { size, .. } => Demand::Exactly(size),
        Phase::StreamingEntry { remaining, .. } => Demand::UpTo(remaining),
        Phase::SkippingPad => Demand::Exactly(1),
        Phase::Exhausted => Demand::Nothing,
        Phase::Failed => Demand::Nothing,
    }
}

/// The most bytes that a reader takes in a phase.
pub open spec fn amount_of(phase: Phase) -> u64 {
    match demand_of(phase) {
        Demand::Exactly(n) => n,
        Demand::UpTo(n) => n,
        Demand::Nothing => 0,
    }
}

/// Whether a reader is done in a phase.
pub open spec fn is_terminal(phase: Phase) -> bool {
    phase == Phase::Exhausted || phase == Phase::Failed
}

/// The bytes of `input` that a reader takes in a phase: as many as it
/// wants, from the front. It does not look at the others.
pub open spec fn chunk_of(phase: Phase, input: Seq<u8>) -> Seq<u8> {
    if input.len() <= amount_of(phase) {
        input
    } else {
        input.take(amount_of(phase) as int)
    }
}

/// The phase after a payload whose size field was `size`.
pub open spec fn after_payload(size: u64) -> Phase {
    if size % 2 == 1 {
        Phase::SkippingPad
    } else {
        Phase::BetweenEntries
    }
}

/// A reader that failed with `e`.
pub open spec fn fail(r: ReaderView, e: ArError) -> (ReaderView, Result<StepView, ArError>) {
    (ReaderView { phase: Phase::Failed, ..r }, Err(e))
}

/// The reader hands out the entry `h`, whose size field was `size`.
pub open spec fn begin_entry(r: ReaderView, h: HeaderView, size: u64) -> (
    ReaderView,
    Result<StepView, ArError>,
) {
    let phase = if h.size == 0 {
        after_payload(size)
    } else {
        Phase::StreamingEntry { remaining: h.size, padded: size % 2 == 1 }
    };
    (ReaderView { phase, ..r }, Ok(StepView::Entry(h)))
}

/// The reader takes in the payload of a pseudo-entry.
pub open spec fn take_pseudo(r: ReaderView, kind: PseudoEntry, payload: Seq<u8>) -> (
    ReaderView,
    Result<StepView, ArError>,
) {
    let phase = after_payload(payload.len() as u64);
    match kind {
        PseudoEntry::NameTable => (ReaderView { phase, table: payload, ..r }, Ok(StepView::More)),
        PseudoEntry::GnuSymbolTable => match gnu_symbols_spec(payload) {
            Err(e) => fail(r, e),
            Ok(symbols) => (ReaderView { phase, symbols, ..r }, Ok(StepView::More)),
        },
        PseudoEntry::BsdSymbolTable => match bsd_symbols_spec(payload, r.order) {
            Err(e) => fail(r, e),
            Ok(symbols) => (ReaderView { phase, symbols, ..r }, Ok(StepView::More)),
        },
    }
}

/// The reader has read the sixty bytes of a header, `raw`. A pseudo-entry
/// is told by its identifier field before any name is resolved.
pub open spec fn after_header(r: ReaderView, raw: HeaderView) -> (
    ReaderView,
    Result<StepView, ArError>,
) {
    match pseudo_entry_spec(r.variant, raw.identifier) {
        Some(kind) => if raw.size == 0 {
            take_pseudo(r, kind, Seq::empty())
        } else {
            (
                ReaderView { phase: Phase::ReadingPseudo { kind, size: raw.size }, ..r },
                Ok(StepView::More),
            )
        },
        None => match decode_identifier_spec(r.variant, raw.identifier) {
            Err(e) => fail(r, e),
            Ok(NameRefView::Inline(name)) => begin_entry(
                r,
                HeaderView { identifier: name, ..raw },
                raw.size,
            ),
            Ok(NameRefView::Extended(len)) => if len > raw.size {
                fail(r, ArError::MalformedField)
            } else if len == 0 {
                begin_entry(r, HeaderView { identifier: Seq::empty(), ..raw }, raw.size)
            } else {
                (
                    ReaderView {
                        phase: Phase::ReadingName {
                            len,
                            mtime: raw.mtime,
                            uid: raw.uid,
                            gid: raw.gid,
                            mode: raw.mode,
                            size: raw.size,
                        },
                        ..r
                    },
                    Ok(StepView::More),
                )
            },
            Ok(NameRefView::TableOffset(offset)) => match lookup_spec(r.table, offset) {
                Err(e) => fail(r, e),
                Ok(name) => begin_entry(r, HeaderView { identifier: name, ..raw }, raw.size),
            },
        },
    }
}

/// One step of a reader: the state after `input` was fed in, and what the
/// bytes taken from it were.
///
/// * `AtMagic`: anything but the eight magic bytes is `InvalidMagic`.
/// * `BetweenEntries`: no bytes are the end of the archive; fewer than
///   sixty are a truncated header.
/// * `ReadingName`, `ReadingPseudo`: fewer bytes than wanted are a truncated
///   header.
/// * `StreamingEntry`: no bytes are the end of the archive, short of what
///   the header promised; otherwise the bytes are payload.
/// * `SkippingPad`: the byte is dropped, whatever it is; no byte is the end
///   of the archive.
/// * `Exhausted`, `Failed`: nothing changes.
#[verifier::opaque]
pub open spec fn step_spec(r: ReaderView, input: Seq<u8>) -> (
    ReaderView,
    Result<StepView, ArError>,
) {
    let chunk = chunk_of(r.phase, input);
    match r.phase {
        Phase::AtMagic => if chunk == magic() {
            (ReaderView { phase: Phase::BetweenEntries, ..r }, Ok(StepView::More))
        } else {
            fail(r, ArError::InvalidMagic)
        },
        Phase::BetweenEntries => if chunk.len() == 0 {
            (ReaderView { phase: Phase::Exhausted, ..r }, Ok(StepView::End))
        } else {
            match decode_record_spec(chunk) {
                Err(e) => fail(r, e),
                Ok(raw) => after_header(r, raw),
            }
        },
        Phase::ReadingName { len, mtime, uid, gid, mode, size } => if chunk.len() < len || len
            > size {
            fail(r, ArError::TruncatedHeader)
        } else {
            begin_entry(
                r,
                HeaderView { identifier: chunk, mtime, uid, gid, mode, size: (size - len) as u64 },
                size,
            )
        },
        Phase::ReadingPseudo { kind, size } => if chunk.len() < size {
            fail(r, ArError::TruncatedHeader)
        } else {
            take_pseudo(r, kind, chunk)
        },
        Phase::StreamingEntry { remaining, padded } => if chunk.len() == 0 {
            (ReaderView { phase: Phase::Exhausted, ..r }, Ok(StepView::End))
        } else if chunk.len() < remaining {
            (
                ReaderView {
                    phase: Phase::StreamingEntry {
                        remaining: (remaining - chunk.len()) as u64,
                        padded,
                    },
                    ..r
                },
                Ok(StepView::More),
            )
        } else {
            (
                ReaderView {
                    phase: if padded {
                        Phase::SkippingPad
                    } else {
                        Phase::BetweenEntries
                    },
                    ..r
                },
                Ok(StepView::More),
            )
        },
        Phase::SkippingPad => if chunk.len() == 0 {
            (ReaderView { phase: Phase::Exhausted, ..r }, Ok(StepView::End))
        } else {
            (ReaderView { phase: Phase::BetweenEntries, ..r }, Ok(StepView::More))
        },
        Phase::Exhausted => (r, Ok(StepView::End)),
        Phase::Failed => (r, Ok(StepView::End)),
    }
}

/// What a step handed back, as mathematical values.
pub open spec fn outcome(r: Result<Step, ArError>) -> Result<StepView, ArError> {
    match r {
        Ok(step) => Ok(step@),
        Err(e) => Err(e),
    }
}

/// A reader of archives.
#[derive(Debug)]
pub struct Reader {
    variant: Variant,
    order: ByteOrder,
    phase: Phase,
    table: Vec<u8>,
    symbols: Vec<Symbol>,
}

impl View for Reader {
    type V = ReaderView;

    closed spec fn view(&self) -> ReaderView {
        ReaderView {
            variant: self.variant,
            order: self.order,
            phase: self.phase,
            table: self.table@,
            symbols: symbols_view(self.symbols@),
        }
    }
}

impl Reader {
    /// A reader for an archive of the given dialect. `order` is the byte
    /// order in which a BSD symbol table, should there be one, was written.
    pub fn new(variant: Variant, order: ByteOrder) -> (reader: Reader)
        ensures
            reader@ == initial(variant, order),
    {
        let reader = Reader {
            variant,
            order,
            phase: Phase::AtMagic,
            table: Vec::new(),
            symbols: Vec::new(),
        };
        assert(symbols_view(reader.symbols@) =~= Seq::<SymbolView>::empty());
        reader
    }

    /// The dialect of the archive.
    pub fn variant(&self) -> (variant: Variant)
        ensures
            variant == self@.variant,
    {
        self.variant
    }

    /// Where the reader stands.
    pub fn phase(&self) -> (phase: Phase)
        ensures
            phase == self@.phase,
    {
        self.phase
    }

    /// What the reader wants next.
    pub fn demand(&self) -> (demand: Demand)
        ensures
            demand == demand_of(self@.phase),
    {
        match self.phase {
            Phase::AtMagic => Demand::Exactly(8),
            Phase::BetweenEntries => Demand::Exactly(HEADER_LEN as u64),
            Phase::ReadingName { len, .. } => Demand::Exactly(len),
            Phase::ReadingPseudo { size, .. } => Demand::Exactly(size),
            Phase::StreamingEntry { remaining, .. } => Demand::UpTo(remaining),
            Phase::SkippingPad => Demand::Exactly(1),
            Phase::Exhausted => Demand::Nothing,
            Phase::Failed => Demand::Nothing,
        }
    }

    /// The most bytes that the reader takes next.
    pub fn amount(&self) -> (amount: u64)
        ensures
            amount == amount_of(self@.phase),
    {
        match self.demand() {
            Demand::Exactly(n) => n,
            Demand::UpTo(n) => n,
            Demand::Nothing => 0,
        }
    }

    /// Whether the reader is done.
    pub fn is_done(&self) -> (done: bool)
        ensures
            done == is_terminal(self@.phase),
    {
        match self.phase {
            Phase::Exhausted => true,
            Phase::Failed => true,
            _ => false,
        }
    }

    /// The symbols of the symbol table that was read, in its order; none
    /// where no symbol table was read.
    pub fn symbols(&self) -> (symbols: &[Symbol])
        ensures
            symbols_view(symbols@) == self@.symbols,
    {
        self.symbols.as_slice()
    }

    /// Gives up the reader for the symbols it holds.
    pub fn into_symbols(self) -> (symbols: Vec<Symbol>)
        ensures
            symbols_view(symbols@) == self@.symbols,
    {
        self.symbols
    }

    /// The payload of the name table that was read; empty where none was.
    pub fn name_table(&self) -> (table: &[u8])
        ensures
            table@ == self@.table,
    {
        self.table.as_slice()
    }

    /// The reader fails with `e`.
    fn fail(&mut self, e: ArError) -> (r: Result<Step, ArError>)
        ensures
            (final(self)@, outcome(r)) == fail(old(self)@, e),
    {
        self.phase = Phase::Failed;
        Err(e)
    }

    /// The reader hands out the entry `header`, whose size field was `size`.
    fn begin_entry(&mut self, header: Header, size: u64) -> (r: Result<Step, ArError>)
        ensures
            (final(self)@, outcome(r)) == begin_entry(old(self)@, header@, size),
    {
        let padded = size % 2 == 1;
        self.phase =
        if header.size() == 0 {
            if padded {
                Phase::SkippingPad
            } else {
                Phase::BetweenEntries
            }
        } else {
            Phase::StreamingEntry { remaining: header.size(), padded }
        };
        Ok(Step::Entry(header))
    }

    /// The reader takes in the payload of a pseudo-entry.
    fn take_pseudo(&mut self, kind: PseudoEntry, payload: &[u8]) -> (r: Result<Step, ArError>)
        ensures
            (final(self)@, outcome(r)) == take_pseudo(old(self)@, kind, payload@),
    {
        let phase = if payload.len() as u64 % 2 == 1 {
            Phase::SkippingPad
        } else {
            Phase::BetweenEntries
        };
        match kind {
            PseudoEntry::NameTable => {
                self.table = copy_range(payload, 0, payload.len());
                assert(self.table@ =~= payload@);
                self.phase = phase;
                Ok(Step::More)
            },
            PseudoEntry::GnuSymbolTable => match decode_gnu_symbols(payload) {
                Ok(symbols) => {
                    self.symbols = symbols;
                    self.phase = phase;
                    Ok(Step::More)
                },
                Err(e) => self.fail(e),
            },
            PseudoEntry::BsdSymbolTable => match decode_bsd_symbols(payload, self.order) {
                Ok(symbols) => {
                    self.symbols = symbols;
                    self.phase = phase;
                    Ok(Step::More)
                },
                Err(e) => self.fail(e),
            },
        }
    }

    /// The reader has read the sixty bytes of a header.
    fn after_header(&mut self, raw: Header) -> (r: Result<Step, ArError>)
        ensures
            (final(self)@, outcome(r)) == after_header(old(self)@, raw@),
    {
        let mut header = raw;
        let size = header.size();
        match self.variant.pseudo_entry(header.identifier()) {
            Some(kind) => {
                if size == 0 {
                    let nothing: Vec<u8> = Vec::new();
                    assert(nothing@ =~= Seq::<u8>::empty());
                    return self.take_pseudo(kind, nothing.as_slice());
                }
                self.phase = Phase::ReadingPseudo { kind, size };
                return Ok(Step::More);
            },
            None => {},
        }
        let name_ref = match self.variant.decode_identifier(header.identifier()) {
            Ok(name_ref) => name_ref,
            Err(e) => {
                return self.fail(e);
            },
        };
        match name_ref {
            NameRef::Inline(name) => {
                header.set_identifier(name);
                self.begin_entry(header, size)
            },
            NameRef::Extended(len) => {
                if len > size {
                    return self.fail(ArError::MalformedField);
                }
                if len == 0 {
                    let nothing: Vec<u8> = Vec::new();
                    assert(nothing@ =~= Seq::<u8>::empty());
                    header.set_identifier(nothing);
                    return self.begin_entry(header, size);
                }
                self.phase = Phase::ReadingName {
                    len,
                    mtime: header.mtime(),
                    uid: header.uid(),
                    gid: header.gid(),
                    mode: header.mode(),
                    size,
                };
                Ok(Step::More)
            },
            NameRef::TableOffset(offset) => match lookup_name(self.table.as_slice(), offset) {
                Ok(name) => {
                    header.set_identifier(name);
                    self.begin_entry(header, size)
                },
                Err(e) => self.fail(e),
            },
        }
    }

    /// Feeds the next bytes of the archive to the reader. The reader takes
    /// as many bytes from the front of `input` as `amount` says, and does
    /// not look at the others. See `step_spec` for what it makes of them.
    pub fn feed(&mut self, input: &[u8]) -> (r: Result<Step, ArError>)
        ensures
            (final(self)@, outcome(r)) == step_spec(old(self)@, input@),
    {
        proof {
            reveal(step_spec);
        }
        let amount: u64 = self.amount();
        let taken: usize = if input.len() as u64 <= amount {
            input.len()
        } else {
            amount as usize
        };
        let chunk = slice_subrange(input, 0, taken);
        assert(chunk@ =~= chunk_of(self@.phase, input@));
        let phase = self.phase;
        match phase {
            Phase::AtMagic => {
                let expected = magic_bytes();
                if bytes_equal(chunk, expected.as_slice()) {
                    self.phase = Phase::BetweenEntries;
                    Ok(Step::More)
                } else {
                    self.fail(ArError::InvalidMagic)
                }
            },
            Phase::BetweenEntries => {
                if chunk.len() == 0 {
                    self.phase = Phase::Exhausted;
                    return Ok(Step::End);
                }
                match Header::decode(chunk) {
                    Ok(raw) => self.after_header(raw),
                    Err(e) => self.fail(e),
                }
            },
            Phase::ReadingName { len, mtime, uid, gid, mode, size } => {
                if (chunk.len() as u64) < len || len > size {
                    return self.fail(ArError::TruncatedHeader);
                }
                let name = copy_range(chunk, 0, chunk.len());
                assert(name@ =~= chunk@);
                let mut header = Header::new(name, size - len);
                header.set_mtime(mtime);
                header.set_uid(uid);
                header.set_gid(gid);
                header.set_mode(mode);
                self.begin_entry(header, size)
            },
            Phase::ReadingPseudo { kind, size } => {
                if (chunk.len() as u64) < size {
                    return self.fail(ArError::TruncatedHeader);
                }
                self.take_pseudo(kind, chunk)
            },
            Phase::StreamingEntry { remaining, padded } => {
                if chunk.len() == 0 {
                    self.phase = Phase::Exhausted;
                    Ok(Step::End)
                } else if (chunk.len() as u64) < remaining {
                    self.phase = Phase::StreamingEntry {
                        remaining: remaining - chunk.len() as u64,
                        padded,
                    };
                    Ok(Step::More)
                } else {
                    self.phase =
                    if padded {
                        Phase::SkippingPad
                    } else {
                        Phase::BetweenEntries
                    };
                    Ok(Step::More)
                }
            },
            Phase::SkippingPad => {
                if chunk.len() == 0 {
                    self.phase = Phase::Exhausted;
                    Ok(Step::End)
                } else {
                    self.phase = Phase::BetweenEntries;
                    Ok(Step::More)
                }
            },
            Phase::Exhausted => Ok(Step::End),
            Phase::Failed => Ok(Step::End),
        }
    }
}

} // verus!
