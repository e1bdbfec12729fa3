//! A read-only parser for the one TIFF layout that the OSMViews pipeline
//! produces.
//!
//! Only IFD 0 (the full-resolution level) is read. Anything that does not have
//! the expected shape is rejected rather than interpreted: little-endian
//! classic TIFF, a square power-of-two raster cut into 256 x 256 tiles, one
//! 32-bit float sample per pixel, no or zlib compression, no predictor, and a
//! finite `SMaxSampleValue`.

use vstd::prelude::*;

use crate::Error;
use vstd::arithmetic::power2::{lemma2_to64, lemma_pow2_pos, lemma_pow2_unfold, pow2};

verus! {

pub const TAG_IMAGE_WIDTH: u16 = 256;
pub const TAG_IMAGE_LENGTH: u16 = 257;
pub const TAG_BITS_PER_SAMPLE: u16 = 258;
pub const TAG_COMPRESSION: u16 = 259;
pub const TAG_SAMPLES_PER_PIXEL: u16 = 277;
pub const TAG_PLANAR_CONFIG: u16 = 284;
pub const TAG_PREDICTOR: u16 = 317;
pub const TAG_TILE_WIDTH: u16 = 322;
pub const TAG_TILE_LENGTH: u16 = 323;
pub const TAG_TILE_OFFSETS: u16 = 324;
pub const TAG_TILE_BYTE_COUNTS: u16 = 325;
pub const TAG_SAMPLE_FORMAT: u16 = 339;
pub const TAG_MAX_SAMPLE_VALUE: u16 = 341;

pub const TYPE_SHORT: u16 = 3;
pub const TYPE_LONG: u16 = 4;
pub const TYPE_FLOAT: u16 = 11;
pub const TYPE_DOUBLE: u16 = 12;

/// Side of a tile, in pixels.
pub const TILE_SIDE: u32 = 256;

// ---------------------------------------------------------------------------
// Little-endian integers in a byte sequence
// ---------------------------------------------------------------------------

/// The little-endian 16-bit value stored at `at`.
pub open spec fn le16(s: Seq<u8>, at: int) -> int {
    s[at] as int + 256 * s[at + 1]
}

/// The little-endian 32-bit value stored at `at`.
pub open spec fn le32(s: Seq<u8>, at: int) -> int {
    le16(s, at) + 65536 * le16(s, at + 2)
}

/// The little-endian 64-bit value stored at `at`.
pub open spec fn le64(s: Seq<u8>, at: int) -> int {
    le32(s, at) + 0x1_0000_0000 * le32(s, at + 4)
}

/// The `u16` at `at`; the caller has checked the bounds.
fn u16_at(data: &[u8], at: usize) -> (r: u16)
    requires
        at + 2 <= data@.len(),
    ensures
        r == le16(data@, at as int),
{
    (data[at] as u16) + (data[at + 1] as u16) * 256
}

/// The `u32` at `at`; the caller has checked the bounds.
fn u32_at(data: &[u8], at: usize) -> (r: u32)
    requires
        at + 4 <= data@.len(),
    ensures
        r == le32(data@, at as int),
{
    (data[at] as u32) + (data[at + 1] as u32) * 256 + (data[at + 2] as u32) * 65536 + (data[at
        + 3] as u32) * 16777216
}

/// The `u64` at `at`; the caller has checked the bounds.
fn u64_at(data: &[u8], at: usize) -> (r: u64)
    requires
        at + 8 <= data@.len(),
    ensures
        r == le64(data@, at as int),
{
    let len = data.len();
    assert(at + 4 <= len);
    (u32_at(data, at) as u64) + (u32_at(data, at + 4) as u64) * 0x1_0000_0000
}

// ---------------------------------------------------------------------------
// Errors
// ---------------------------------------------------------------------------

/// The format error that carries `msg`.
pub open spec fn format_error(msg: &'static str) -> Error {
    Error::Format(msg)
}

/// Builds a format error carrying `msg`.
pub fn err(msg: &'static str) -> (r: Error)
    ensures
        r == format_error(msg),
{
    Error::Format(msg)
}

/// Reads the little-endian `u16` at `at`, or fails with "truncated file".
pub fn read_u16(data: &[u8], at: usize) -> (r: Result<u16, Error>)
    ensures
        at + 2 <= data@.len() ==> r == Ok::<u16, Error>(le16(data@, at as int) as u16),
        at + 2 > data@.len() ==> r == Err::<u16, Error>(format_error("truncated file")),
{
    if at > data.len() || data.len() - at < 2 {
        return Err(err("truncated file"));
    }
    Ok(u16_at(data, at))
}

/// Reads the little-endian `u32` at `at`, or fails with "truncated file".
pub fn read_u32(data: &[u8], at: usize) -> (r: Result<u32, Error>)
    ensures
        at + 4 <= data@.len() ==> r == Ok::<u32, Error>(le32(data@, at as int) as u32),
        at + 4 > data@.len() ==> r == Err::<u32, Error>(format_error("truncated file")),
{
    if at > data.len() || data.len() - at < 4 {
        return Err(err("truncated file"));
    }
    Ok(u32_at(data, at))
}


// ---------------------------------------------------------------------------
// Tile tables
// ---------------------------------------------------------------------------

/// Element type of a `TileOffsets` or `TileByteCounts` array.
#[derive(Clone, Copy, Debug, PartialEq, Eq, Structural)]
pub enum Elem {
    Short,
    Long,
}

impl Elem {
    /// Bytes per element.
    pub open spec fn spec_size(self) -> int {
        match self {
            Elem::Short => 2,
            Elem::Long => 4,
        }
    }

    /// The element type that TIFF field type `t` names, if it is one a tile
    /// table may use.
    pub open spec fn spec_from_type(t: u16) -> Option<Elem> {
        if t == TYPE_SHORT {
            Some(Elem::Short)
        } else if t == TYPE_LONG {
            Some(Elem::Long)
        } else {
            None
        }
    }

    /// Bytes per element.
    pub fn size(self) -> (r: usize)
        ensures
            r == self.spec_size(),
    {
        match self {
            Elem::Short => 2,
            Elem::Long => 4,
        }
    }

    /// The element type that TIFF field type `t` names: SHORT or LONG.
    pub fn from_type(t: u16) -> (r: Option<Elem>)
        ensures
            r == Self::spec_from_type(t),
    {
        if t == TYPE_SHORT {
            Some(Elem::Short)
        } else if t == TYPE_LONG {
            Some(Elem::Long)
        } else {
            None
        }
    }
}

/// A `TileOffsets` or `TileByteCounts` array, kept as a position into the file
/// (never copied out).
#[derive(Clone, Copy, Debug)]
pub struct TileTable {
    /// Byte position of the first element.
    pub pos: usize,
    /// Element type.
    pub elem: Elem,
}

impl TileTable {
    /// Byte position just past the first `count` elements.
    pub open spec fn end(self, count: int) -> int {
        self.pos + count * self.elem.spec_size()
    }

    /// The `i`-th element, read from the file bytes `s`.
    pub open spec fn value_at(self, s: Seq<u8>, i: int) -> int {
        match self.elem {
            Elem::Short => le16(s, self.pos + 2 * i),
            Elem::Long => le32(s, self.pos + 4 * i),
        }
    }

    /// Every element is at most `u32::MAX`.
    pub proof fn lemma_value_fits(self, s: Seq<u8>, i: int)
        ensures
            0 <= self.value_at(s, i) <= u32::MAX,
    {
        match self.elem {
            Elem::Short => {},
            Elem::Long => {},
        }
    }

    /// Reads the `i`-th entry.
    pub fn get(&self, data: &[u8], i: usize) -> (r: u64)
        requires
            self.end(i + 1) <= data@.len(),
        ensures
            r == self.value_at(data@, i as int),
    {
        let len = data.len();
        match self.elem {
            Elem::Short => {
                assert(self.pos + 2 * i + 2 <= len);
                u16_at(data, self.pos + i * 2) as u64
            },
            Elem::Long => {
                assert(self.pos + 4 * i + 4 <= len);
                u32_at(data, self.pos + i * 4) as u64
            },
        }
    }
}

/// If the first `count` elements fit in `len` bytes, so do the first `i + 1`
/// for every `i < count`.
proof fn lemma_table_prefix(t: TileTable, i: int, count: int)
    requires
        0 <= i < count,
    ensures
        t.end(i + 1) <= t.end(count),
{
    match t.elem {
        Elem::Short => {},
        Elem::Long => {},
    }
}

// ---------------------------------------------------------------------------
// IFD entries
// ---------------------------------------------------------------------------

/// The largest sample value, as the raw IEEE 754 bits of the FLOAT or DOUBLE
/// that the file stores.
#[derive(Clone, Copy, Debug, PartialEq, Eq, Structural)]
pub enum MaxSample {
    /// Bits of an inline 32-bit float.
    Single(u32),
    /// Bits of an out-of-line 64-bit float.
    Double(u64),
}

impl MaxSample {
    /// Whether the stored float is finite: its exponent field is not all ones.
    pub open spec fn spec_is_finite(self) -> bool {
        match self {
            MaxSample::Single(b) => (b / 0x80_0000) % 0x100 != 0xff,
            MaxSample::Double(b) => (b / 0x10_0000_0000_0000) % 0x800 != 0x7ff,
        }
    }

    /// Whether the stored float is finite (neither infinite nor NaN).
    pub fn is_finite(&self) -> (r: bool)
        ensures
            r == self.spec_is_finite(),
    {
        match *self {
            MaxSample::Single(b) => (b / 0x80_0000) % 0x100 != 0xff,
            MaxSample::Double(b) => (b / 0x10_0000_0000_0000) % 0x800 != 0x7ff,
        }
    }
}

/// Raw form of one IFD entry, before we know which tag we care about.
pub struct Entry {
    pub typ: u16,
    pub count: u32,
    /// The 4-byte value/offset field, verbatim.
    pub value: [u8; 4],
}

impl Entry {
    /// The entry as a single SHORT or LONG stored inline.
    pub open spec fn spec_scalar_u32(self) -> Option<u32> {
        if self.count != 1 {
            None
        } else if self.typ == TYPE_SHORT {
            Some(le16(self.value@, 0) as u32)
        } else if self.typ == TYPE_LONG {
            Some(le32(self.value@, 0) as u32)
        } else {
            None
        }
    }

    /// The entry as a single FLOAT (inline) or DOUBLE (out of line in `s`).
    pub open spec fn spec_scalar_float(self, s: Seq<u8>) -> Option<MaxSample> {
        if self.count != 1 {
            None
        } else if self.typ == TYPE_FLOAT {
            Some(MaxSample::Single(le32(self.value@, 0) as u32))
        } else if self.typ == TYPE_DOUBLE {
            let at = le32(self.value@, 0);
            if at + 8 <= s.len() {
                Some(MaxSample::Double(le64(s, at) as u64))
            } else {
                None
            }
        } else {
            None
        }
    }

    /// Interprets the entry as a single SHORT or LONG stored inline.
    pub fn scalar_u32(&self) -> (r: Option<u32>)
        ensures
            r == self.spec_scalar_u32(),
            self.count == 1 && self.typ == TYPE_LONG ==> r == Some(
                (self.value[0] + 256 * self.value[1] + 65536 * self.value[2] + 16777216
                    * self.value[3]) as u32,
            ),
            self.count == 1 && self.typ == TYPE_SHORT ==> r == Some(
                (self.value[0] + 256 * self.value[1]) as u32,
            ),
    {
        proof {
            law_entry_scalar_u32(*self);
        }
        if self.count != 1 {
            return None;
        }
        if self.typ == TYPE_SHORT {
            Some((self.value[0] as u32) + (self.value[1] as u32) * 256)
        } else if self.typ == TYPE_LONG {
            Some(self.value_u32())
        } else {
            None
        }
    }

    /// Interprets the entry as a single FLOAT (inline) or DOUBLE (out of
    /// line), giving the float's raw bits.
    pub fn scalar_float(&self, data: &[u8]) -> (r: Option<MaxSample>)
        ensures
            r == self.spec_scalar_float(data@),
    {
        if self.count != 1 {
            return None;
        }
        if self.typ == TYPE_FLOAT {
            Some(MaxSample::Single(self.value_u32()))
        } else if self.typ == TYPE_DOUBLE {
            let at = self.value_u32() as usize;
            if at > data.len() || data.len() - at < 8 {
                return None;
            }
            Some(MaxSample::Double(u64_at(data, at)))
        } else {
            None
        }
    }

    /// The value/offset field read as a little-endian `u32`.
    fn value_u32(&self) -> (r: u32)
        ensures
            r == le32(self.value@, 0),
    {
        (self.value[0] as u32) + (self.value[1] as u32) * 256 + (self.value[2] as u32) * 65536
            + (self.value[3] as u32) * 16777216
    }
}

// ---------------------------------------------------------------------------
// Powers of two
// ---------------------------------------------------------------------------

/// Whether `n` is a power of two.
pub open spec fn is_power_of_two(n: nat) -> bool
    decreases n,
{
    if n == 0 {
        false
    } else if n == 1 {
        true
    } else {
        n % 2 == 0 && is_power_of_two(n / 2)
    }
}

/// Whether `n` is a power of two.
pub fn power_of_two(n: u32) -> (r: bool)
    ensures
        r == is_power_of_two(n as nat),
{
    if n == 0 {
        return false;
    }
    let mut v = n;
    while v > 1 && v % 2 == 0
        invariant
            v >= 1,
            is_power_of_two(v as nat) == is_power_of_two(n as nat),
        decreases v,
    {
        v = v / 2;
    }
    v == 1
}


// ---------------------------------------------------------------------------
// The header
// ---------------------------------------------------------------------------

/// What `parse` extracts from a file, in spec form.
pub struct HeaderView {
    /// Raster width in pixels (equal to the height).
    pub size: u32,
    /// Number of tiles along one axis (`size / 256`).
    pub tiles_across: u32,
    /// TIFF compression tag: `1` (none) or `8` (zlib DEFLATE).
    pub compression: u16,
    /// Highest sample value anywhere in the raster (`SMaxSampleValue`).
    pub max_value: MaxSample,
    pub tile_offsets: TileTable,
    pub tile_byte_counts: TileTable,
    /// Length of the file the header was read from.
    pub file_len: nat,
}

impl HeaderView {
    /// Number of tiles in the grid.
    pub open spec fn grid(self) -> int {
        self.tiles_across as int * self.tiles_across as int
    }

    /// Byte position of the data of grid tile `i` in the file bytes `s`.
    pub open spec fn tile_offset(self, s: Seq<u8>, i: int) -> int {
        self.tile_offsets.value_at(s, i)
    }

    /// Length of the data of grid tile `i` in the file bytes `s`.
    pub open spec fn tile_byte_count(self, s: Seq<u8>, i: int) -> int {
        self.tile_byte_counts.value_at(s, i)
    }

    /// Grid tile `i` has a non-empty extent that lies inside `s`, past the
    /// TIFF header.
    pub open spec fn tile_in_file(self, s: Seq<u8>, i: int) -> bool {
        tile_error(s, self.tile_offsets, self.tile_byte_counts, i) is None
    }
}

/// Everything a point query needs from the file header.
pub struct Header {
    size: u32,
    tiles_across: u32,
    compression: u16,
    max_value: MaxSample,
    tile_offsets: TileTable,
    tile_byte_counts: TileTable,
    file_len: usize,
}

impl View for Header {
    type V = HeaderView;

    closed spec fn view(&self) -> HeaderView {
        HeaderView {
            size: self.size,
            tiles_across: self.tiles_across,
            compression: self.compression,
            max_value: self.max_value,
            tile_offsets: self.tile_offsets,
            tile_byte_counts: self.tile_byte_counts,
            file_len: self.file_len as nat,
        }
    }
}

/// The shape every parsed header has.
pub open spec fn header_shape(h: HeaderView) -> bool {
    &&& h.tiles_across >= 1
    &&& h.size == TILE_SIDE * h.tiles_across
    &&& h.grid() <= u32::MAX
    &&& h.tile_offsets.end(h.grid()) <= h.file_len
    &&& h.tile_byte_counts.end(h.grid()) <= h.file_len
    &&& (h.compression == 1 || h.compression == 8)
    &&& h.max_value.spec_is_finite()
}

impl Header {
    #[verifier::type_invariant]
    closed spec fn well_formed(self) -> bool {
        header_shape(self@)
    }

    /// Raster width (and height) in pixels.
    pub fn size(&self) -> (r: u32)
        ensures
            r == self@.size,
    {
        self.size
    }

    /// Number of tiles along one axis.
    pub fn tiles_across(&self) -> (r: u32)
        ensures
            r == self@.tiles_across,
    {
        self.tiles_across
    }

    /// TIFF compression tag: `1` (none) or `8` (zlib).
    pub fn compression(&self) -> (r: u16)
        ensures
            r == self@.compression,
    {
        self.compression
    }

    /// Raw bits of the raster's `SMaxSampleValue`.
    pub fn max_value(&self) -> (r: MaxSample)
        ensures
            r == self@.max_value,
    {
        self.max_value
    }

    /// Length of the file the header was read from.
    pub fn file_len(&self) -> (r: usize)
        ensures
            r == self@.file_len,
    {
        self.file_len
    }
}

// ---------------------------------------------------------------------------
// What `parse` computes
// ---------------------------------------------------------------------------

/// Byte position of IFD entry `i`.
pub open spec fn entry_pos(ifd: int, i: int) -> int {
    ifd + 2 + 12 * i
}

/// The tag of IFD entry `i`.
pub open spec fn tag_at(s: Seq<u8>, ifd: int, i: int) -> int {
    le16(s, entry_pos(ifd, i))
}

/// IFD entry `i`, apart from its tag.
pub open spec fn entry_at(s: Seq<u8>, ifd: int, i: int) -> Entry {
    let p = entry_pos(ifd, i);
    Entry {
        typ: le16(s, p + 2) as u16,
        count: le32(s, p + 4) as u32,
        value: [s[p + 8], s[p + 9], s[p + 10], s[p + 11]],
    }
}

/// Index of the last of the first `n` IFD entries that has tag `tag`: when a
/// tag repeats, the last occurrence wins.
pub open spec fn last_with_tag(s: Seq<u8>, ifd: int, n: nat, tag: int) -> Option<int>
    decreases n,
{
    if n == 0 {
        None
    } else if tag_at(s, ifd, n - 1) == tag {
        Some(n - 1)
    } else {
        last_with_tag(s, ifd, (n - 1) as nat, tag)
    }
}

/// The entry that carries `tag`, if any.
pub open spec fn tagged_entry(s: Seq<u8>, ifd: int, n: nat, tag: u16) -> Option<Entry> {
    match last_with_tag(s, ifd, n, tag as int) {
        Some(i) => Some(entry_at(s, ifd, i)),
        None => None,
    }
}

/// The inline SHORT or LONG under `tag`, if present and of that form.
pub open spec fn tagged_u32(s: Seq<u8>, ifd: int, n: nat, tag: u16) -> Option<u32> {
    match tagged_entry(s, ifd, n, tag) {
        Some(e) => e.spec_scalar_u32(),
        None => None,
    }
}

/// The `SMaxSampleValue` float, if present and of a supported form.
pub open spec fn tagged_max(s: Seq<u8>, ifd: int, n: nat) -> Option<MaxSample> {
    match tagged_entry(s, ifd, n, TAG_MAX_SAMPLE_VALUE) {
        Some(e) => e.spec_scalar_float(s),
        None => None,
    }
}

/// The tile table that entry `e` describes, for a grid of `grid` tiles.
pub open spec fn table_result(s: Seq<u8>, e: Entry, grid: int) -> Result<TileTable, Error> {
    match Elem::spec_from_type(e.typ) {
        None => Err(format_error("unexpected tile-table element type")),
        Some(elem) => {
            let total = grid * elem.spec_size();
            let pos = le32(e.value@, 0);
            if e.count != grid {
                Err(format_error("tile-table length does not match the tile grid"))
            } else if total > usize::MAX {
                Err(format_error("tile table too large"))
            } else if total <= 4 {
                Err(format_error("inline tile table not supported"))
            } else if pos + total > s.len() {
                Err(format_error("tile table extends past end of file"))
            } else {
                Ok(TileTable { pos: pos as usize, elem })
            }
        },
    }
}

/// What is wrong with grid tile `i`, if anything.
pub open spec fn tile_error(s: Seq<u8>, offsets: TileTable, counts: TileTable, i: int) -> Option<
    Error,
> {
    let off = offsets.value_at(s, i);
    let len = counts.value_at(s, i);
    if len == 0 || off < 8 {
        Some(format_error("invalid tile entry"))
    } else if off + len > s.len() {
        Some(format_error("tile data extends past end of file"))
    } else {
        None
    }
}

/// The first problem among grid tiles `0 .. k`, if any.
pub open spec fn scan_error(s: Seq<u8>, offsets: TileTable, counts: TileTable, k: nat) -> Option<
    Error,
>
    decreases k,
{
    if k == 0 {
        None
    } else {
        match scan_error(s, offsets, counts, (k - 1) as nat) {
            Some(e) => Some(e),
            None => tile_error(s, offsets, counts, k - 1),
        }
    }
}

/// The fields of IFD 0 that the header is built from.
pub struct IfdFields {
    pub width: Option<u32>,
    pub length: Option<u32>,
    pub bits: Option<u32>,
    pub compression: Option<u32>,
    pub samples: Option<u32>,
    pub planar: Option<u32>,
    pub predictor: Option<u32>,
    pub tile_w: Option<u32>,
    pub tile_h: Option<u32>,
    pub sample_format: Option<u32>,
    pub max_value: Option<MaxSample>,
    pub tile_offsets: Option<Entry>,
    pub tile_byte_counts: Option<Entry>,
}

/// The fields that the first `n` entries of the IFD at `ifd` set.
pub open spec fn ifd_fields(s: Seq<u8>, ifd: int, n: nat) -> IfdFields {
    IfdFields {
        width: tagged_u32(s, ifd, n, TAG_IMAGE_WIDTH),
        length: tagged_u32(s, ifd, n, TAG_IMAGE_LENGTH),
        bits: tagged_u32(s, ifd, n, TAG_BITS_PER_SAMPLE),
        compression: tagged_u32(s, ifd, n, TAG_COMPRESSION),
        samples: tagged_u32(s, ifd, n, TAG_SAMPLES_PER_PIXEL),
        planar: tagged_u32(s, ifd, n, TAG_PLANAR_CONFIG),
        predictor: tagged_u32(s, ifd, n, TAG_PREDICTOR),
        tile_w: tagged_u32(s, ifd, n, TAG_TILE_WIDTH),
        tile_h: tagged_u32(s, ifd, n, TAG_TILE_LENGTH),
        sample_format: tagged_u32(s, ifd, n, TAG_SAMPLE_FORMAT),
        max_value: tagged_max(s, ifd, n),
        tile_offsets: tagged_entry(s, ifd, n, TAG_TILE_OFFSETS),
        tile_byte_counts: tagged_entry(s, ifd, n, TAG_TILE_BYTE_COUNTS),
    }
}

/// The header that the IFD fields `f` of the file `s` describe, or the first
/// check they fail.
pub open spec fn header_result(s: Seq<u8>, f: IfdFields) -> Result<HeaderView, Error> {
    if f.width is None || f.length is None {
        Err(format_error("missing image dimensions"))
    } else if f.width != f.length {
        Err(format_error("raster is not square"))
    } else if f.width->0 < TILE_SIDE || !is_power_of_two(f.width->0 as nat) {
        Err(format_error("unexpected raster size"))
    } else if f.tile_w != Some(TILE_SIDE) || f.tile_h != Some(TILE_SIDE) {
        Err(format_error("unexpected tile size"))
    } else if f.bits != Some(32u32) || f.sample_format != Some(3u32) {
        Err(format_error("samples are not 32-bit float"))
    } else if f.samples != Some(1u32) {
        Err(format_error("expected a single sample per pixel"))
    } else if f.planar != Some(1u32) {
        Err(format_error("unexpected planar configuration"))
    } else if f.compression != Some(1u32) && f.compression != Some(8u32) {
        Err(format_error("unsupported compression"))
    } else if f.predictor != None::<u32> && f.predictor != Some(1u32) {
        Err(format_error("TIFF predictor is not supported"))
    } else if f.max_value is None {
        Err(format_error("missing SMaxSampleValue"))
    } else if !f.max_value->0.spec_is_finite() {
        Err(format_error("SMaxSampleValue is not finite"))
    } else {
        let size = f.width->0;
        let tiles_across = size / TILE_SIDE;
        let grid = tiles_across as int * tiles_across as int;
        if grid > u32::MAX {
            Err(format_error("raster has too many tiles"))
        } else {
            match f.tile_offsets {
                None => Err(format_error("missing TileOffsets")),
                Some(oe) => match table_result(s, oe, grid) {
                    Err(e) => Err(e),
                    Ok(offsets) => match f.tile_byte_counts {
                        None => Err(format_error("missing TileByteCounts")),
                        Some(ce) => match table_result(s, ce, grid) {
                            Err(e) => Err(e),
                            Ok(counts) => match scan_error(s, offsets, counts, grid as nat) {
                                Some(e) => Err(e),
                                None => Ok(
                                    HeaderView {
                                        size,
                                        tiles_across: tiles_across as u32,
                                        compression: f.compression->0 as u16,
                                        max_value: f.max_value->0,
                                        tile_offsets: offsets,
                                        tile_byte_counts: counts,
                                        file_len: s.len(),
                                    },
                                ),
                            },
                        },
                    },
                },
            }
        }
    }
}

/// The header of the OSMViews GeoTIFF `s`, or the first check it fails.
pub open spec fn parse_result(s: Seq<u8>) -> Result<HeaderView, Error> {
    if s.len() < 8 {
        Err(format_error("not a TIFF (file too short)"))
    } else if !(s[0] == 0x49 && s[1] == 0x49) {
        if s[0] == 0x4d && s[1] == 0x4d {
            Err(format_error("big-endian TIFF is not supported"))
        } else {
            Err(format_error("not a TIFF"))
        }
    } else if le16(s, 2) != 42 {
        if le16(s, 2) == 43 {
            Err(format_error("BigTIFF is not supported"))
        } else {
            Err(format_error("not a TIFF (unrecognized version)"))
        }
    } else {
        let ifd = le32(s, 4);
        if ifd + 2 > s.len() {
            Err(format_error("truncated file"))
        } else {
            let n = le16(s, ifd);
            let entries_end = ifd + 2 + 12 * n + 4;
            if entries_end > usize::MAX {
                Err(format_error("bad IFD"))
            } else if entries_end > s.len() {
                Err(format_error("truncated IFD"))
            } else {
                header_result(s, ifd_fields(s, ifd, n as nat))
            }
        }
    }
}

/// `r` is the outcome that `spec` describes.
pub open spec fn parsed_as(r: Result<Header, Error>, spec: Result<HeaderView, Error>) -> bool {
    match r {
        Ok(h) => spec == Ok::<HeaderView, Error>(h@),
        Err(e) => spec == Err::<HeaderView, Error>(e),
    }
}


// ---------------------------------------------------------------------------
// Parsing
// ---------------------------------------------------------------------------

/// If `d` is a power of two no larger than the power of two `n`, it divides
/// `n`.
proof fn lemma_power_of_two_divides(n: nat, d: nat)
    requires
        is_power_of_two(n),
        is_power_of_two(d),
        d <= n,
    ensures
        n % d == 0,
    decreases n,
{
    if d != 1 {
        let h = n / 2;
        let e = d / 2;
        lemma_power_of_two_divides(h, e);
        assert(n % d == 0) by (nonlinear_arith)
            requires
                n == 2 * h,
                d == 2 * e,
                e > 0,
                h % e == 0,
        {
            let q = h / e;
            assert(h == e * q);
            assert(n == d * q);
        }
    }
}

/// No grid tile before `k` has a problem when the scan up to `k` finds none.
proof fn lemma_scan_clean(s: Seq<u8>, offsets: TileTable, counts: TileTable, k: nat, i: int)
    requires
        scan_error(s, offsets, counts, k) is None,
        0 <= i < k,
    ensures
        tile_error(s, offsets, counts, i) is None,
    decreases k,
{
    if i < k - 1 {
        lemma_scan_clean(s, offsets, counts, (k - 1) as nat, i);
    }
}

/// Once the scan finds a problem, scanning further reports the same one.
proof fn lemma_scan_stops(s: Seq<u8>, offsets: TileTable, counts: TileTable, k: nat, m: nat)
    requires
        scan_error(s, offsets, counts, k) is Some,
        k <= m,
    ensures
        scan_error(s, offsets, counts, m) == scan_error(s, offsets, counts, k),
    decreases m,
{
    if m > k {
        lemma_scan_stops(s, offsets, counts, k, (m - 1) as nat);
    }
}

/// Checks a `TileOffsets` or `TileByteCounts` entry against a grid of `grid`
/// tiles and the file bounds.
fn tile_table(data: &[u8], entry: Entry, grid: usize) -> (r: Result<TileTable, Error>)
    ensures
        r == table_result(data@, entry, grid as int),
{
    let elem = match Elem::from_type(entry.typ) {
        Some(e) => e,
        None => return Err(err("unexpected tile-table element type")),
    };
    if entry.count as usize != grid {
        return Err(err("tile-table length does not match the tile grid"));
    }
    let total = match grid.checked_mul(elem.size()) {
        Some(t) => t,
        None => return Err(err("tile table too large")),
    };
    if total <= 4 {
        // Would be stored inline in the entry; the OSMViews pipeline never emits
        // a single-tile image, so that path is not implemented.
        return Err(err("inline tile table not supported"));
    }
    let pos = entry.value_u32() as usize;
    if pos > data.len() || total > data.len() - pos {
        return Err(err("tile table extends past end of file"));
    }
    Ok(TileTable { pos, elem })
}

/// Reads the `n` entries of the IFD at `ifd`, keeping the last entry of each
/// tag of interest.
fn read_ifd(data: &[u8], ifd: usize, n: usize) -> (f: IfdFields)
    requires
        ifd + 2 + 12 * n <= data@.len(),
    ensures
        f == ifd_fields(data@, ifd as int, n as nat),
{
    let mut width = None;
    let mut length = None;
    let mut bits = None;
    let mut compression = None;
    let mut samples = None;
    let mut planar = None;
    let mut predictor = None;
    let mut tile_w = None;
    let mut tile_h = None;
    let mut sample_format = None;
    let mut max_value = None;
    let mut tile_offsets = None;
    let mut tile_byte_counts = None;
    let ghost s = data@;
    let dlen = data.len();
    let mut i: usize = 0;
    while i < n
        invariant
            s == data@,
            dlen == s.len(),
            ifd + 2 + 12 * n <= s.len(),
            i <= n,
            width == tagged_u32(s, ifd as int, i as nat, TAG_IMAGE_WIDTH),
            length == tagged_u32(s, ifd as int, i as nat, TAG_IMAGE_LENGTH),
            bits == tagged_u32(s, ifd as int, i as nat, TAG_BITS_PER_SAMPLE),
            compression == tagged_u32(s, ifd as int, i as nat, TAG_COMPRESSION),
            samples == tagged_u32(s, ifd as int, i as nat, TAG_SAMPLES_PER_PIXEL),
            planar == tagged_u32(s, ifd as int, i as nat, TAG_PLANAR_CONFIG),
            predictor == tagged_u32(s, ifd as int, i as nat, TAG_PREDICTOR),
            tile_w == tagged_u32(s, ifd as int, i as nat, TAG_TILE_WIDTH),
            tile_h == tagged_u32(s, ifd as int, i as nat, TAG_TILE_LENGTH),
            sample_format == tagged_u32(s, ifd as int, i as nat, TAG_SAMPLE_FORMAT),
            max_value == tagged_max(s, ifd as int, i as nat),
            tile_offsets == tagged_entry(s, ifd as int, i as nat, TAG_TILE_OFFSETS),
            tile_byte_counts == tagged_entry(s, ifd as int, i as nat, TAG_TILE_BYTE_COUNTS),
        decreases n - i,
    {
        let at = ifd + 2 + i * 12;
        let tag = u16_at(data, at);
        let entry = Entry {
            typ: u16_at(data, at + 2),
            count: u32_at(data, at + 4),
            value: [data[at + 8], data[at + 9], data[at + 10], data[at + 11]],
        };
        assert(entry == entry_at(s, ifd as int, i as int));
        assert(tag == tag_at(s, ifd as int, i as int));
        if tag == TAG_IMAGE_WIDTH {
            width = entry.scalar_u32();
        } else if tag == TAG_IMAGE_LENGTH {
            length = entry.scalar_u32();
        } else if tag == TAG_BITS_PER_SAMPLE {
            bits = entry.scalar_u32();
        } else if tag == TAG_COMPRESSION {
            compression = entry.scalar_u32();
        } else if tag == TAG_SAMPLES_PER_PIXEL {
            samples = entry.scalar_u32();
        } else if tag == TAG_PLANAR_CONFIG {
            planar = entry.scalar_u32();
        } else if tag == TAG_PREDICTOR {
            predictor = entry.scalar_u32();
        } else if tag == TAG_TILE_WIDTH {
            tile_w = entry.scalar_u32();
        } else if tag == TAG_TILE_LENGTH {
            tile_h = entry.scalar_u32();
        } else if tag == TAG_SAMPLE_FORMAT {
            sample_format = entry.scalar_u32();
        } else if tag == TAG_MAX_SAMPLE_VALUE {
            max_value = entry.scalar_float(data);
        } else if tag == TAG_TILE_OFFSETS {
            tile_offsets = Some(entry);
        } else if tag == TAG_TILE_BYTE_COUNTS {
            tile_byte_counts = Some(entry);
        }
        i += 1;
    }
    IfdFields {
        width,
        length,
        bits,
        compression,
        samples,
        planar,
        predictor,
        tile_w,
        tile_h,
        sample_format,
        max_value,
        tile_offsets,
        tile_byte_counts,
    }
}


/// Whether `o` holds exactly `v`.
fn holds(o: Option<u32>, v: u32) -> (r: bool)
    ensures
        r == (o == Some(v)),
{
    match o {
        Some(x) => x == v,
        None => false,
    }
}

/// Validates the IFD fields `f` and builds the header they describe.
#[verifier::loop_isolation(false)]
fn header_from(data: &[u8], f: IfdFields) -> (r: Result<Header, Error>)
    ensures
        parsed_as(r, header_result(data@, f)),
        r matches Ok(h) ==> forall|i: int|
            0 <= i < h@.grid() ==> #[trigger] h@.tile_in_file(data@, i),
{
    let ghost s = data@;
    let size = match f.width {
        Some(w) => w,
        None => return Err(err("missing image dimensions")),
    };
    let height = match f.length {
        Some(h) => h,
        None => return Err(err("missing image dimensions")),
    };
    if size != height {
        return Err(err("raster is not square"));
    }
    if size < TILE_SIDE || !power_of_two(size) {
        return Err(err("unexpected raster size"));
    }
    if !holds(f.tile_w, TILE_SIDE) || !holds(f.tile_h, TILE_SIDE) {
        return Err(err("unexpected tile size"));
    }
    if !holds(f.bits, 32) || !holds(f.sample_format, 3) {
        return Err(err("samples are not 32-bit float"));
    }
    if !holds(f.samples, 1) {
        return Err(err("expected a single sample per pixel"));
    }
    if !holds(f.planar, 1) {
        return Err(err("unexpected planar configuration"));
    }
    let compression: u16 = match f.compression {
        Some(c) => {
            if c == 1 || c == 8 {
                c as u16
            } else {
                return Err(err("unsupported compression"));
            }
        },
        None => return Err(err("unsupported compression")),
    };
    match f.predictor {
        None => {},
        Some(p) => {
            if p != 1 {
                return Err(err("TIFF predictor is not supported"));
            }
        },
    }
    let max_value = match f.max_value {
        Some(v) => {
            if v.is_finite() {
                v
            } else {
                return Err(err("SMaxSampleValue is not finite"));
            }
        },
        None => return Err(err("missing SMaxSampleValue")),
    };

    let tiles_across = size / TILE_SIDE;
    let grid = match (tiles_across as usize).checked_mul(tiles_across as usize) {
        Some(g) => {
            if g <= u32::MAX as usize {
                g
            } else {
                return Err(err("raster has too many tiles"));
            }
        },
        None => return Err(err("raster has too many tiles")),
    };

    let offsets_entry = match f.tile_offsets {
        Some(e) => e,
        None => return Err(err("missing TileOffsets")),
    };
    let tile_offsets = match tile_table(data, offsets_entry, grid) {
        Ok(t) => t,
        Err(e) => return Err(e),
    };
    let counts_entry = match f.tile_byte_counts {
        Some(e) => e,
        None => return Err(err("missing TileByteCounts")),
    };
    let tile_byte_counts = match tile_table(data, counts_entry, grid) {
        Ok(t) => t,
        Err(e) => return Err(e),
    };

    // One sequential pass so that a corrupt file is rejected here rather than
    // making point queries fallible.
    let dlen = data.len();
    let mut i: usize = 0;
    while i < grid
        invariant
            s == data@,
            dlen == s.len(),
            i <= grid,
            tile_offsets.end(grid as int) <= s.len(),
            tile_byte_counts.end(grid as int) <= s.len(),
            scan_error(s, tile_offsets, tile_byte_counts, i as nat) is None,
        decreases grid - i,
    {
        proof {
            lemma_table_prefix(tile_offsets, i as int, grid as int);
            lemma_table_prefix(tile_byte_counts, i as int, grid as int);
        }
        let off = tile_offsets.get(data, i) as usize;
        let len = tile_byte_counts.get(data, i) as usize;
        if len == 0 || off < 8 {
            proof {
                lemma_scan_stops(s, tile_offsets, tile_byte_counts, (i + 1) as nat, grid as nat);
            }
            return Err(err("invalid tile entry"));
        }
        if off > dlen || len > dlen - off {
            proof {
                lemma_scan_stops(s, tile_offsets, tile_byte_counts, (i + 1) as nat, grid as nat);
            }
            return Err(err("tile data extends past end of file"));
        }
        i += 1;
    }

    proof {
        reveal_with_fuel(is_power_of_two, 10);
        assert(is_power_of_two(256));
        lemma_power_of_two_divides(size as nat, 256);
        assert forall|j: int| 0 <= j < grid implies tile_error(
            s,
            tile_offsets,
            tile_byte_counts,
            j,
        ) is None by {
            lemma_scan_clean(s, tile_offsets, tile_byte_counts, grid as nat, j);
        }
    }
    Ok(
        Header {
            size,
            tiles_across,
            compression,
            max_value,
            tile_offsets,
            tile_byte_counts,
            file_len: dlen,
        },
    )
}

/// Parses and validates the header of an OSMViews GeoTIFF held in `data`
/// (typically a memory map of the whole file).
///
/// On success every tile of the grid lies inside `data`, so a corrupt file is
/// rejected here rather than at query time.
pub fn parse(data: &[u8]) -> (r: Result<Header, Error>)
    ensures
        parsed_as(r, parse_result(data@)),
        r matches Ok(h) ==> forall|i: int|
            0 <= i < h@.grid() ==> #[trigger] h@.tile_in_file(data@, i),
{
    if data.len() < 8 {
        return Err(err("not a TIFF (file too short)"));
    }
    if !(data[0] == 0x49 && data[1] == 0x49) {
        if data[0] == 0x4d && data[1] == 0x4d {
            return Err(err("big-endian TIFF is not supported"));
        }
        return Err(err("not a TIFF"));
    }
    let version = match read_u16(data, 2) {
        Ok(v) => v,
        Err(e) => return Err(e),
    };
    if version != 42 {
        if version == 43 {
            return Err(err("BigTIFF is not supported"));
        }
        return Err(err("not a TIFF (unrecognized version)"));
    }
    let ifd = match read_u32(data, 4) {
        Ok(v) => v as usize,
        Err(e) => return Err(e),
    };
    let n = match read_u16(data, ifd) {
        Ok(v) => v as usize,
        Err(e) => return Err(e),
    };
    // Entry table plus the trailing 4-byte "next IFD" pointer.
    let table_start = ifd.checked_add(2);
    let table_len = n.checked_mul(12);
    let entries_end = match (table_start, table_len) {
        (Some(a), Some(b)) => match a.checked_add(b) {
            Some(c) => c.checked_add(4),
            None => None,
        },
        _ => None,
    };
    let entries_end = match entries_end {
        Some(e) => e,
        None => return Err(err("bad IFD")),
    };
    if entries_end > data.len() {
        return Err(err("truncated IFD"));
    }
    let fields = read_ifd(data, ifd, n);
    header_from(data, fields)
}


// ---------------------------------------------------------------------------
// Locating a pixel
// ---------------------------------------------------------------------------

/// Pixels per tile.
pub const TILE_PIXELS: usize = 65536;

/// Byte offset of a tile's stored data within the file.
///
/// This is the key of the decoded-tile cache. The OSMViews GeoTIFF is sparse:
/// large uniform areas (oceans, deserts) are stored once and referenced from
/// many grid positions, so keying by offset collapses all those positions onto
/// one entry.
#[derive(Clone, Copy, Debug, PartialEq, Eq, Structural)]
pub struct TileOffset(pub u64);

/// Where the sample of one pixel is stored.
#[derive(Clone, Copy, Debug)]
pub struct TileRef {
    /// Position of the tile in the grid, row-major.
    pub grid_index: usize,
    /// Position of the pixel within the tile, row-major.
    pub pixel: usize,
    /// Byte offset of the tile's data in the file; equal offsets mean the
    /// same stored tile.
    pub offset: TileOffset,
    /// Length of the tile's data in the file.
    pub byte_count: u64,
}

impl TileRef {
    /// The tile's data within the file bytes `data`, if it lies inside them.
    pub fn bytes_in<'a>(&self, data: &'a [u8]) -> (r: Option<&'a [u8]>)
        ensures
            self.offset.0 + self.byte_count <= data@.len() ==> (r matches Some(b) && b@
                == data@.subrange(self.offset.0 as int, self.offset.0 + self.byte_count)),
            self.offset.0 + self.byte_count > data@.len() ==> r is None,
    {
        let len = data.len() as u64;
        let offset = self.offset.0;
        if offset > len || self.byte_count > len - offset {
            return None;
        }
        let start = offset as usize;
        let end = (offset + self.byte_count) as usize;
        Some(vstd::slice::slice_subrange(data, start, end))
    }
}

/// The grid index of the tile that holds the pixel at column `x`, row `y`.
pub open spec fn grid_index_of(tiles_across: int, x: int, y: int) -> int {
    (y / 256) * tiles_across + x / 256
}

/// The in-tile position of the pixel at column `x`, row `y`.
pub open spec fn pixel_of(x: int, y: int) -> int {
    (y % 256) * 256 + x % 256
}

/// A pixel inside a raster of `tiles_across` tiles per side lies in one of
/// its tiles.
proof fn lemma_grid_index_bound(tiles_across: int, x: int, y: int)
    requires
        tiles_across >= 1,
        0 <= x < 256 * tiles_across,
        0 <= y < 256 * tiles_across,
    ensures
        0 <= grid_index_of(tiles_across, x, y) < tiles_across * tiles_across,
        0 <= pixel_of(x, y) < 65536,
{
    let a = y / 256;
    let b = x / 256;
    assert(0 <= a < tiles_across && 0 <= b < tiles_across);
    assert(0 <= a * tiles_across + b < tiles_across * tiles_across) by (nonlinear_arith)
        requires
            0 <= a < tiles_across,
            0 <= b < tiles_across,
    {
        assert(a * tiles_across <= (tiles_across - 1) * tiles_across);
    }
}

impl Header {
    /// Locates the sample of the pixel at column `x`, row `y` of the raster
    /// stored in `data`, the bytes this header was parsed from.
    pub fn locate(&self, data: &[u8], x: u32, y: u32) -> (r: TileRef)
        requires
            data@.len() == self@.file_len,
            x < self@.size,
            y < self@.size,
        ensures
            r.grid_index == grid_index_of(self@.tiles_across as int, x as int, y as int),
            r.grid_index == (y / 256) as int * self@.tiles_across + (x / 256) as int,
            r.pixel == pixel_of(x as int, y as int),
            r.pixel == (y % 256) as int * 256 + (x % 256) as int,
            r.grid_index < self@.grid(),
            r.pixel < TILE_PIXELS,
            r.offset.0 == self@.tile_offset(data@, r.grid_index as int),
            r.byte_count == self@.tile_byte_count(data@, r.grid_index as int),
    {
        proof {
            use_type_invariant(self);
            lemma_grid_index_bound(self.tiles_across as int, x as int, y as int);
            law_grid_index_row_major(self.tiles_across as int, x as int, y as int);
        }
        let across = self.tiles_across as usize;
        let grid_index = (y / 256) as usize * across + (x / 256) as usize;
        let pixel = (y % 256) as usize * 256 + (x % 256) as usize;
        proof {
            let grid = self@.grid();
            lemma_table_prefix(self.tile_offsets, grid_index as int, grid);
            lemma_table_prefix(self.tile_byte_counts, grid_index as int, grid);
        }
        TileRef {
            grid_index,
            pixel,
            offset: TileOffset(self.tile_offsets.get(data, grid_index)),
            byte_count: self.tile_byte_counts.get(data, grid_index),
        }
    }
}

/// A header parsed from the file `s` places every pixel of the raster in a
/// tile whose non-empty data lies inside `s`: once `parse` accepts a file,
/// no point query can run past its end.
pub proof fn law_parsed_tiles_lie_in_file(s: Seq<u8>, h: HeaderView, x: int, y: int)
    requires
        parse_result(s) == Ok::<HeaderView, Error>(h),
        0 <= x < h.size,
        0 <= y < h.size,
    ensures
        ({
            let i = grid_index_of(h.tiles_across as int, x, y);
            &&& 0 <= i < h.grid()
            &&& h.tile_byte_count(s, i) > 0
            &&& 8 <= h.tile_offset(s, i)
            &&& h.tile_offset(s, i) + h.tile_byte_count(s, i) <= s.len()
        }),
{
    let ifd = le32(s, 4);
    let n = le16(s, ifd) as nat;
    let f = ifd_fields(s, ifd, n);
    assert(header_result(s, f) == Ok::<HeaderView, Error>(h));
    let size = f.width->0;
    reveal_with_fuel(is_power_of_two, 10);
    assert(is_power_of_two(256));
    lemma_power_of_two_divides(size as nat, 256);
    lemma_grid_index_bound(h.tiles_across as int, x, y);
    let i = grid_index_of(h.tiles_across as int, x, y);
    lemma_scan_clean(s, h.tile_offsets, h.tile_byte_counts, h.grid() as nat, i);
}

// ---------------------------------------------------------------------------
// Laws
// ---------------------------------------------------------------------------

/// Little-endian values are their bytes weighted by powers of 256.
pub proof fn law_little_endian(s: Seq<u8>, at: int)
    ensures
        le16(s, at) == s[at] + 256 * s[at + 1],
        le32(s, at) == s[at] + 256 * s[at + 1] + 65536 * s[at + 2] + 16777216 * s[at + 3],
        le64(s, at) == s[at] + 256 * s[at + 1] + 65536 * s[at + 2] + 16777216 * s[at + 3]
            + 0x1_0000_0000 * (s[at + 4] + 256 * s[at + 5] + 65536 * s[at + 6] + 16777216 * s[at
            + 7]),
        0 <= le16(s, at) <= u16::MAX,
        0 <= le32(s, at) <= u32::MAX,
{
}

/// A single inline SHORT is the little-endian value of the first two value
/// bytes, a single inline LONG that of all four; any other entry is not an
/// integer scalar.
pub proof fn law_entry_scalar_u32(e: Entry)
    ensures
        e.count == 1 && e.typ == TYPE_LONG ==> e.spec_scalar_u32() == Some(
            (e.value[0] + 256 * e.value[1] + 65536 * e.value[2] + 16777216 * e.value[3]) as u32,
        ),
        e.count == 1 && e.typ == TYPE_SHORT ==> e.spec_scalar_u32() == Some(
            (e.value[0] + 256 * e.value[1]) as u32,
        ),
        e.count != 1 || (e.typ != TYPE_SHORT && e.typ != TYPE_LONG) ==> e.spec_scalar_u32()
            is None,
{
}

/// An inline FLOAT is the little-endian value of its four value bytes.
pub proof fn law_entry_scalar_float(e: Entry, s: Seq<u8>)
    ensures
        e.count == 1 && e.typ == TYPE_FLOAT ==> e.spec_scalar_float(s) == Some(
            MaxSample::Single(
                (e.value[0] + 256 * e.value[1] + 65536 * e.value[2] + 16777216 * e.value[3]) as u32,
            ),
        ),
        e.count != 1 || (e.typ != TYPE_FLOAT && e.typ != TYPE_DOUBLE) ==> e.spec_scalar_float(
            s,
        ) is None,
{
}

/// Table elements are SHORTs or LONGs laid out back to back from `pos`.
pub proof fn law_table_elements(t: TileTable, s: Seq<u8>, i: int)
    ensures
        t.elem == Elem::Short ==> t.value_at(s, i) == s[t.pos + 2 * i] + 256 * s[t.pos + 2 * i
            + 1],
        t.elem == Elem::Long ==> t.value_at(s, i) == s[t.pos + 4 * i] + 256 * s[t.pos + 4 * i + 1]
            + 65536 * s[t.pos + 4 * i + 2] + 16777216 * s[t.pos + 4 * i + 3],
        t.end(i + 1) == t.pos + (i + 1) * if t.elem == Elem::Short {
            2int
        } else {
            4int
        },
{
}

/// Grid indices run row-major over the tile grid: the tile one tile-row down
/// is `tiles_across` further on, the tile one column right is one further on,
/// and the top-left tile is `0`.
pub proof fn law_grid_index_row_major(tiles_across: int, x: int, y: int)
    requires
        tiles_across >= 1,
        x >= 0,
        y >= 0,
    ensures
        grid_index_of(tiles_across, x, y + 256) == grid_index_of(tiles_across, x, y)
            + tiles_across,
        grid_index_of(tiles_across, x + 256, y) == grid_index_of(tiles_across, x, y) + 1,
        x < 256 && y < 256 ==> grid_index_of(tiles_across, x, y) == 0,
        grid_index_of(tiles_across, x, y) == (y / 256) * tiles_across + x / 256,
        pixel_of(x, y) == (y % 256) * 256 + x % 256,
        pixel_of(x, y + 256) == pixel_of(x, y),
        pixel_of(x + 256, y) == pixel_of(x, y),
{
    assert((y + 256) / 256 == y / 256 + 1);
    assert((x + 256) / 256 == x / 256 + 1);
    assert((y + 256) % 256 == y % 256);
    assert((x + 256) % 256 == x % 256);
    assert(((y / 256) + 1) * tiles_across == (y / 256) * tiles_across + tiles_across)
        by (nonlinear_arith);
}

/// `is_power_of_two` holds exactly of the powers of two.
pub proof fn law_power_of_two(n: nat)
    ensures
        is_power_of_two(n) <==> exists|k: nat| n == pow2(k),
    decreases n,
{
    if is_power_of_two(n) {
        if n == 1 {
            assert(n == pow2(0)) by {
                lemma2_to64();
            }
        } else {
            law_power_of_two(n / 2);
            let k = choose|k: nat| n / 2 == pow2(k);
            lemma_pow2_unfold(k + 1);
            assert(n == pow2(k + 1));
        }
    }
    if exists|k: nat| n == pow2(k) {
        let k = choose|k: nat| n == pow2(k);
        if k == 0 {
            lemma2_to64();
        } else {
            lemma_pow2_unfold(k);
            lemma_pow2_pos((k - 1) as nat);
            assert(n / 2 == pow2((k - 1) as nat));
            law_power_of_two(n / 2);
            assert(n % 2 == 0);
        }
    }
}

/// Every header that `parse` accepts has the shape the OSMViews pipeline
/// produces: a square power-of-two raster at least one tile wide, whose side
/// is the width the IFD declares, cut into 256-pixel tiles, with no or zlib
/// compression and a finite maximum.
pub proof fn law_parsed_header_shape(s: Seq<u8>, h: HeaderView)
    requires
        parse_result(s) == Ok::<HeaderView, Error>(h),
    ensures
        header_shape(h),
        is_power_of_two(h.size as nat),
        h.size >= 256,
        h.file_len == s.len(),
        s[0] == 0x49 && s[1] == 0x49,
        le16(s, 2) == 42,
        ({
            let ifd = le32(s, 4);
            let f = ifd_fields(s, ifd, le16(s, ifd) as nat);
            &&& f.width == Some(h.size)
            &&& f.length == Some(h.size)
            &&& f.tile_w == Some(256u32)
            &&& f.tile_h == Some(256u32)
            &&& f.bits == Some(32u32)
            &&& f.sample_format == Some(3u32)
            &&& f.samples == Some(1u32)
            &&& f.planar == Some(1u32)
            &&& (f.predictor is None || f.predictor == Some(1u32))
            &&& f.compression == Some(h.compression as u32)
            &&& f.max_value == Some(h.max_value)
        }),
{
    let ifd = le32(s, 4);
    let n = le16(s, ifd) as nat;
    let f = ifd_fields(s, ifd, n);
    assert(header_result(s, f) == Ok::<HeaderView, Error>(h));
    let size = f.width->0;
    reveal_with_fuel(is_power_of_two, 10);
    assert(is_power_of_two(256));
    lemma_power_of_two_divides(size as nat, 256);
}

} // verus!
