//! The symbol table: which entry of the archive defines which symbol.
//!
//! A symbol table is the payload of a pseudo-entry. Both layouts begin with
//! a 32-bit count of symbols.
//!
//! * **GNU**: all numbers are big-endian. After the count stands one 32-bit
//!   file offset for each symbol, then the names, each ended by a NUL, in
//!   the order of the offsets.
//! * **BSD**: the byte order is the writer's, so the caller names it. After
//!   the count stands one pair of 32-bit numbers for each symbol, the offset
//!   of its name in the string table and its file offset; then the string
//!   table, in which each name is ended by a NUL.
//!
//! A name that no NUL ends runs to the end of the payload.

use crate::bytes::copy_range;
use crate::error::ArError;
use vstd::prelude::*;
use vstd::slice::slice_subrange;

verus! {

/// The order of the bytes of a 32-bit number.
#[derive(Clone, Copy, Debug, PartialEq, Eq, Structural)]
pub enum ByteOrder {
    /// Least significant byte first.
    Little,
    /// Most significant byte first.
    Big,
}

/// A symbol and the offset, from the beginning of the archive, of the header
/// of the entry that defines it.
#[derive(Clone, Debug, PartialEq, Eq)]
pub struct Symbol {
    name: Vec<u8>,
    offset: u64,
}

/// A `Symbol` as mathematical values.
pub struct SymbolView {
    /// The name of the symbol.
    pub name: Seq<u8>,
    /// The offset of the entry that defines it.
    pub offset: u64,
}

impl View for Symbol {
    type V = SymbolView;

    closed spec fn view(&self) -> SymbolView {
        SymbolView { name: self.name@, offset: self.offset }
    }
}

impl Symbol {
    /// A symbol with the given name and entry offset.
    pub fn new(name: Vec<u8>, offset: u64) -> (symbol: Symbol)
        ensures
            symbol@ == (SymbolView { name: name@, offset: offset }),
    {
        Symbol { name, offset }
    }

    /// The name of the symbol.
    pub fn name(&self) -> (name: &[u8])
        ensures
            name@ == self@.name,
    {
        self.name.as_slice()
    }

    /// The offset of the entry that defines the symbol.
    pub fn offset(&self) -> (offset: u64)
        ensures
            offset == self@.offset,
    {
        self.offset
    }
}

/// The symbols of `v` as mathematical values.
pub open spec fn symbols_view(v: Seq<Symbol>) -> Seq<SymbolView> {
    v.map_values(|s: Symbol| s@)
}

/// Whether `r` holds the symbols that `s` describes, or the same error.
pub open spec fn same_symbols(
    r: Result<Vec<Symbol>, ArError>,
    s: Result<Seq<SymbolView>, ArError>,
) -> bool {
    match r {
        Ok(v) => s == Ok::<Seq<SymbolView>, ArError>(symbols_view(v@)),
        Err(e) => s == Err::<Seq<SymbolView>, ArError>(e),
    }
}

/// The 32-bit number that the four bytes at `at` denote.
pub open spec fn u32_spec(bytes: Seq<u8>, at: int, order: ByteOrder) -> nat
    recommends
        0 <= at,
        at + 4 <= bytes.len(),
{
    match order {
        ByteOrder::Big => (bytes[at] * 0x100_0000 + bytes[at + 1] * 0x1_0000 + bytes[at + 2] * 0x100
            + bytes[at + 3]) as nat,
        ByteOrder::Little => (bytes[at + 3] * 0x100_0000 + bytes[at + 2] * 0x1_0000 + bytes[at
            + 1] * 0x100 + bytes[at]) as nat,
    }
}

/// Where the name that begins at `from` ends: at the first NUL, or at the
/// end of `strings` where there is none.
pub open spec fn nul_end(strings: Seq<u8>, from: int) -> int
    recommends
        0 <= from,
    decreases strings.len() - from,
{
    if from >= strings.len() {
        strings.len() as int
    } else if strings[from] == 0 {
        from
    } else {
        nul_end(strings, from + 1)
    }
}

/// The name that begins at `from`.
pub open spec fn name_at(strings: Seq<u8>, from: int) -> Seq<u8> {
    strings.subrange(from, nul_end(strings, from))
}

/// Where the `index`th of the names that stand one after the other begins.
pub open spec fn gnu_name_start(strings: Seq<u8>, index: nat) -> int
    decreases index,
{
    if index == 0 {
        0
    } else {
        let end = nul_end(strings, gnu_name_start(strings, (index - 1) as nat));
        if end < strings.len() {
            end + 1
        } else {
            end
        }
    }
}

/// What a GNU symbol table holds. A payload too short for its count and
/// offsets is malformed.
pub open spec fn gnu_symbols_spec(payload: Seq<u8>) -> Result<Seq<SymbolView>, ArError> {
    if payload.len() < 4 {
        Err(ArError::MalformedField)
    } else {
        let count = u32_spec(payload, 0, ByteOrder::Big);
        if payload.len() < 4 + 4 * count {
            Err(ArError::MalformedField)
        } else {
            let strings = payload.skip((4 + 4 * count) as int);
            Ok(
                Seq::new(
                    count,
                    |i: int|
                        SymbolView {
                            name: name_at(strings, gnu_name_start(strings, i as nat)),
                            offset: u32_spec(payload, 4 + 4 * i, ByteOrder::Big) as u64,
                        },
                ),
            )
        }
    }
}

/// The offset, in the string table, of the name of the `index`th symbol of a
/// BSD symbol table.
pub open spec fn bsd_name_offset(payload: Seq<u8>, index: int, order: ByteOrder) -> nat {
    u32_spec(payload, 4 + 8 * index, order)
}

/// What a BSD symbol table holds. A payload too short for its count and
/// pairs is malformed, and so is one with a name offset beyond the string
/// table.
pub open spec fn bsd_symbols_spec(payload: Seq<u8>, order: ByteOrder) -> Result<
    Seq<SymbolView>,
    ArError,
> {
    if payload.len() < 4 {
        Err(ArError::MalformedField)
    } else {
        let count = u32_spec(payload, 0, order);
        if payload.len() < 4 + 8 * count {
            Err(ArError::MalformedField)
        } else {
            let strings = payload.skip((4 + 8 * count) as int);
            if exists|i: int| 0 <= i < count && #[trigger] bsd_name_offset(payload, i, order)
                > strings.len() {
                Err(ArError::MalformedField)
            } else {
                Ok(
                    Seq::new(
                        count,
                        |i: int|
                            SymbolView {
                                name: name_at(strings, bsd_name_offset(payload, i, order) as int),
                                offset: u32_spec(payload, 4 + 8 * i + 4, order) as u64,
                            },
                    ),
                )
            }
        }
    }
}

/// Reads the 32-bit number at `at`.
fn read_u32(bytes: &[u8], at: usize, order: ByteOrder) -> (n: u32)
    requires
        at + 4 <= bytes@.len(),
    ensures
        n == u32_spec(bytes@, at as int, order),
{
    let b0: u32 = bytes[at] as u32;
    let b1: u32 = bytes[at + 1] as u32;
    let b2: u32 = bytes[at + 2] as u32;
    let b3: u32 = bytes[at + 3] as u32;
    match order {
        ByteOrder::Big => b0 * 0x100_0000 + b1 * 0x1_0000 + b2 * 0x100 + b3,
        ByteOrder::Little => b3 * 0x100_0000 + b2 * 0x1_0000 + b1 * 0x100 + b0,
    }
}

/// Finds where the name that begins at `from` ends.
fn find_nul(strings: &[u8], from: usize) -> (end: usize)
    requires
        from <= strings@.len(),
    ensures
        end == nul_end(strings@, from as int),
        from <= end <= strings@.len(),
{
    let mut end: usize = from;
    while end < strings.len() && strings[end] != 0
        invariant
            from <= end <= strings@.len(),
            nul_end(strings@, from as int) == nul_end(strings@, end as int),
        decreases strings@.len() - end,
    {
        end = end + 1;
    }
    end
}

/// Reads a GNU symbol table: see `gnu_symbols_spec`.
pub fn decode_gnu_symbols(payload: &[u8]) -> (r: Result<Vec<Symbol>, ArError>)
    ensures
        same_symbols(r, gnu_symbols_spec(payload@)),
{
    if payload.len() < 4 {
        return Err(ArError::MalformedField);
    }
    let count: u32 = read_u32(payload, 0, ByteOrder::Big);
    if ((payload.len() - 4) as u64) < 4 * (count as u64) {
        return Err(ArError::MalformedField);
    }
    let base: usize = 4 + 4 * (count as usize);
    let strings = slice_subrange(payload, base, payload.len());
    assert(strings@ =~= payload@.skip(base as int));
    let ghost expected = gnu_symbols_spec(payload@)->Ok_0;
    let mut symbols: Vec<Symbol> = Vec::new();
    let mut start: usize = 0;
    let mut i: usize = 0;
    while i < count as usize
        invariant
            i <= count,
            base == 4 + 4 * count,
            base <= payload@.len(),
            strings@ == payload@.skip(base as int),
            gnu_symbols_spec(payload@) == Ok::<Seq<SymbolView>, ArError>(expected),
            expected.len() == count,
            start <= strings@.len(),
            start == gnu_name_start(strings@, i as nat),
            symbols@.len() == i,
            forall|j: int| 0 <= j < i ==> (#[trigger] symbols@[j])@ == expected[j],
        decreases count - i,
    {
        let end: usize = find_nul(strings, start);
        let name = copy_range(strings, start, end);
        let offset: u32 = read_u32(payload, 4 + 4 * i, ByteOrder::Big);
        symbols.push(Symbol::new(name, offset as u64));
        assert(gnu_name_start(strings@, (i + 1) as nat) == if end < strings@.len() {
            end + 1
        } else {
            end as int
        });
        start =
        if end < strings.len() {
            end + 1
        } else {
            end
        };
        i = i + 1;
    }
    assert(symbols_view(symbols@) =~= expected);
    Ok(symbols)
}

/// Reads a BSD symbol table whose numbers are in the given byte order: see
/// `bsd_symbols_spec`.
pub fn decode_bsd_symbols(payload: &[u8], order: ByteOrder) -> (r: Result<Vec<Symbol>, ArError>)
    ensures
        same_symbols(r, bsd_symbols_spec(payload@, order)),
{
    if payload.len() < 4 {
        return Err(ArError::MalformedField);
    }
    let count: u32 = read_u32(payload, 0, order);
    if ((payload.len() - 4) as u64) < 8 * (count as u64) {
        return Err(ArError::MalformedField);
    }
    let base: usize = 4 + 8 * (count as usize);
    let strings = slice_subrange(payload, base, payload.len());
    assert(strings@ =~= payload@.skip(base as int));
    let mut symbols: Vec<Symbol> = Vec::new();
    let mut i: usize = 0;
    while i < count as usize
        invariant
            i <= count,
            count == u32_spec(payload@, 0, order),
            base == 4 + 8 * count,
            base <= payload@.len(),
            strings@ == payload@.skip(base as int),
            symbols@.len() == i,
            forall|j: int| 0 <= j < i ==> #[trigger] bsd_name_offset(payload@, j, order)
                <= strings@.len(),
            forall|j: int|
                0 <= j < i ==> (#[trigger] symbols@[j])@ == (SymbolView {
                    name: name_at(strings@, bsd_name_offset(payload@, j, order) as int),
                    offset: u32_spec(payload@, 4 + 8 * j + 4, order) as u64,
                }),
        decreases count - i,
    {
        let name_offset: u32 = read_u32(payload, 4 + 8 * i, order);
        if name_offset as u64 > strings.len() as u64 {
            assert(bsd_name_offset(payload@, i as int, order) > strings@.len());
            return Err(ArError::MalformedField);
        }
        let start: usize = name_offset as usize;
        let end: usize = find_nul(strings, start);
        let name = copy_range(strings, start, end);
        let offset: u32 = read_u32(payload, 4 + 8 * i + 4, order);
        symbols.push(Symbol::new(name, offset as u64));
        i = i + 1;
    }
    assert(symbols_view(symbols@) =~= bsd_symbols_spec(payload@, order)->Ok_0);
    Ok(symbols)
}

} // verus!
