//! Reading an archive that is in memory as a whole: the reader is fed from
//! a slice until it is done.

use crate::bytes::copy_range;
use crate::error::ArError;
use crate::header::{Header, HeaderView, Variant};
use crate::reader::{
    chunk_of, initial, is_terminal, step_spec, Phase, Reader, ReaderView, Step, StepView,
};
use crate::symbols::{symbols_view, ByteOrder, Symbol, SymbolView};
use vstd::prelude::*;
use vstd::slice::slice_subrange;

verus! {

/// An entry of an archive: its header and as much of its payload as the
/// archive holds. The payload is shorter than the header says where the
/// archive ends inside it.
#[derive(Debug, PartialEq, Eq)]
pub struct Entry {
    header: Header,
    data: Vec<u8>,
}

/// An `Entry` as mathematical values.
pub struct EntryView {
    /// The header.
    pub header: HeaderView,
    /// The payload.
    pub data: Seq<u8>,
}

impl View for Entry {
    type V = EntryView;

    closed spec fn view(&self) -> EntryView {
        EntryView { header: self.header@, data: self.data@ }
    }
}

impl Entry {
    /// The header of the entry.
    pub fn header(&self) -> (header: &Header)
        ensures
            header@ == self@.header,
    {
        &self.header
    }

    /// The payload of the entry.
    pub fn data(&self) -> (data: &[u8])
        ensures
            data@ == self@.data,
    {
        self.data.as_slice()
    }
}

/// What an archive holds.
#[derive(Debug, PartialEq, Eq)]
pub struct Archive {
    entries: Vec<Entry>,
    symbols: Vec<Symbol>,
}

/// An `Archive` as mathematical values.
pub struct ArchiveView {
    /// The entries, in the order of the archive.
    pub entries: Seq<EntryView>,
    /// The symbols of the symbol table, in its order.
    pub symbols: Seq<SymbolView>,
}

/// The entries of `v` as mathematical values.
pub open spec fn entries_view(v: Seq<Entry>) -> Seq<EntryView> {
    v.map_values(|e: Entry| e@)
}

impl View for Archive {
    type V = ArchiveView;

    closed spec fn view(&self) -> ArchiveView {
        ArchiveView { entries: entries_view(self.entries@), symbols: symbols_view(self.symbols@) }
    }
}

impl Archive {
    /// The entries, in the order of the archive.
    pub fn entries(&self) -> (entries: &[Entry])
        ensures
            entries_view(entries@) == self@.entries,
    {
        self.entries.as_slice()
    }

    /// The symbols of the symbol table, in its order; none where the
    /// archive has no symbol table.
    pub fn symbols(&self) -> (symbols: &[Symbol])
        ensures
            symbols_view(symbols@) == self@.symbols,
    {
        self.symbols.as_slice()
    }
}

/// How far a phase is from the end when no bytes are left.
pub open spec fn rank(phase: Phase) -> nat {
    match phase {
        Phase::AtMagic => 3,
        Phase::ReadingName { .. } => 3,
        Phase::ReadingPseudo { .. } => 3,
        Phase::StreamingEntry { .. } => 2,
        Phase::BetweenEntries => 1,
        Phase::SkippingPad => 1,
        Phase::Exhausted => 0,
        Phase::Failed => 0,
    }
}

/// What was read: the entries and the reader at the end.
pub type Reading = Result<(Seq<EntryView>, ReaderView), ArError>;

/// `reading` with the entries `done` in front.
pub open spec fn with_entries(done: Seq<EntryView>, reading: Reading) -> Reading {
    match reading {
        Err(e) => Err(e),
        Ok((entries, r)) => Ok((done + entries, r)),
    }
}

/// The payload that follows the header `h` in `rest`, the reader being `r`
/// after the header: as much of it as `rest` holds.
pub open spec fn payload_of(r: ReaderView, h: HeaderView, rest: Seq<u8>) -> Seq<u8> {
    if h.size == 0 {
        Seq::empty()
    } else {
        chunk_of(r.phase, rest)
    }
}

/// The reader after the payload that follows the header `h` in `rest`.
pub open spec fn after_payload_of(r: ReaderView, h: HeaderView, rest: Seq<u8>) -> ReaderView {
    if h.size == 0 {
        r
    } else {
        step_spec(r, rest).0
    }
}

/// Every step that does not fail takes bytes or brings the reader nearer to
/// the end; so does the step that hands out an entry together with the
/// step that takes its payload.
pub proof fn lemma_step_progress(r: ReaderView, rest: Seq<u8>)
    requires
        !is_terminal(r.phase),
    ensures
        ({
            let taken = chunk_of(r.phase, rest).len() as int;
            let after = step_spec(r, rest);
            &&& 0 <= taken <= rest.len()
            &&& after.1 is Ok ==> taken > 0 || rank(after.0.phase) < rank(r.phase)
            &&& after.1 matches Ok(StepView::Entry(h)) ==> {
                let left = rest.skip(taken);
                let data = payload_of(after.0, h, left);
                &&& data.len() <= left.len()
                &&& taken > 0 || data.len() > 0 || rank(
                    after_payload_of(after.0, h, left).phase,
                ) < rank(r.phase)
            }
        }),
{
    reveal(step_spec);
}

/// What a reader in state `r` reads from `rest`, step by step, until it is
/// done: each step takes the bytes that it wants from the front of what is
/// left, and the payload of an entry is what the steps after its header
/// take.
pub open spec fn run(r: ReaderView, rest: Seq<u8>) -> Reading
    decreases rest.len(), rank(r.phase),
{
    if is_terminal(r.phase) {
        Ok((Seq::empty(), r))
    } else {
        let taken = chunk_of(r.phase, rest).len() as int;
        let after = step_spec(r, rest);
        proof {
            lemma_step_progress(r, rest);
        }
        match after.1 {
            Err(e) => Err(e),
            Ok(StepView::Entry(h)) => {
                let rest = rest.skip(taken);
                let data = payload_of(after.0, h, rest);
                with_entries(
                    seq![EntryView { header: h, data }],
                    run(after_payload_of(after.0, h, rest), rest.skip(data.len() as int)),
                )
            },
            Ok(_) => run(after.0, rest.skip(taken)),
        }
    }
}

/// What the archive `bytes` holds.
pub open spec fn archive_spec(bytes: Seq<u8>, variant: Variant, order: ByteOrder) -> Result<
    ArchiveView,
    ArError,
> {
    match run(initial(variant, order), bytes) {
        Err(e) => Err(e),
        Ok((entries, r)) => Ok(ArchiveView { entries, symbols: r.symbols }),
    }
}

/// Whether `r` is the archive that `s` describes, or the same error.
pub open spec fn same_archive(r: Result<Archive, ArError>, s: Result<ArchiveView, ArError>) -> bool {
    match r {
        Ok(a) => s == Ok::<ArchiveView, ArError>(a@),
        Err(e) => s == Err::<ArchiveView, ArError>(e),
    }
}

/// Reads the archive `bytes` of the given dialect. `order` is the byte
/// order in which a BSD symbol table, should there be one, was written.
///
/// Pseudo-entries are not among the entries. An archive that ends inside a
/// payload, or lacks the padding after its last payload, is read as far as
/// it goes.
pub fn read_archive(bytes: &[u8], variant: Variant, order: ByteOrder) -> (r: Result<
    Archive,
    ArError,
>)
    ensures
        same_archive(r, archive_spec(bytes@, variant, order)),
{
    let mut reader = Reader::new(variant, order);
    let mut entries: Vec<Entry> = Vec::new();
    let mut pos: usize = 0;
    let ghost whole = run(initial(variant, order), bytes@);
    assert(bytes@.skip(0) =~= bytes@);
    assert(entries_view(entries@) + Seq::<EntryView>::empty() =~= entries_view(entries@));
    assert(entries_view(entries@) =~= Seq::<EntryView>::empty());
    assert(whole == with_entries(entries_view(entries@), whole)) by {
        if whole is Ok {
            assert(Seq::<EntryView>::empty() + whole->Ok_0.0 =~= whole->Ok_0.0);
        }
    }
    while !reader.is_done()
        invariant
            pos <= bytes@.len(),
            whole == run(initial(variant, order), bytes@),
            whole == with_entries(
                entries_view(entries@),
                run(reader@, bytes@.skip(pos as int)),
            ),
        decreases bytes@.len() - pos, rank(reader@.phase),
    {
        let ghost before = reader@;
        let ghost done = entries_view(entries@);
        let rest = slice_subrange(bytes, pos, bytes.len());
        assert(rest@ =~= bytes@.skip(pos as int));
        let taken: usize = taken_len(&reader, rest);
        proof {
            lemma_step_progress(before, rest@);
        }
        match reader.feed(rest) {
            Err(e) => {
                return Err(e);
            },
            Ok(Step::Entry(header)) => {
                pos = pos + taken;
                let rest = slice_subrange(bytes, pos, bytes.len());
                assert(rest@ =~= bytes@.skip(pos as int));
                assert(rest@ =~= bytes@.skip(pos - taken).skip(taken as int));
                let ghost at_payload = reader@;
                let len: usize = if header.size() == 0 {
                    0
                } else {
                    let len = taken_len(&reader, rest);
                    let _ = reader.feed(rest);
                    len
                };
                let data = copy_range(rest, 0, len);
                assert(data@ =~= payload_of(at_payload, header@, rest@));
                assert(reader@ == after_payload_of(at_payload, header@, rest@));
                pos = pos + len;
                assert(bytes@.skip(pos as int) =~= rest@.skip(len as int));
                let ghost entry = EntryView { header: header@, data: data@ };
                entries.push(Entry { header, data });
                proof {
                    let reading = run(reader@, bytes@.skip(pos as int));
                    assert(entries_view(entries@) =~= done + seq![entry]);
                    if reading is Ok {
                        assert((done + seq![entry]) + reading->Ok_0.0 =~= done + (seq![entry]
                            + reading->Ok_0.0));
                    }
                }
            },
            Ok(_) => {
                pos = pos + taken;
                assert(bytes@.skip(pos as int) =~= bytes@.skip(pos - taken).skip(taken as int));
            },
        }
    }
    proof {
        assert(entries_view(entries@) + Seq::<EntryView>::empty() =~= entries_view(entries@));
    }
    let symbols = reader.into_symbols();
    Ok(Archive { entries, symbols })
}

/// How many bytes of `rest` the reader takes next.
fn taken_len(reader: &Reader, rest: &[u8]) -> (taken: usize)
    ensures
        taken == chunk_of(reader@.phase, rest@).len(),
        taken <= rest@.len(),
{
    let amount: u64 = reader.amount();
    if rest.len() as u64 <= amount {
        rest.len()
    } else {
        amount as usize
    }
}

} // verus!
