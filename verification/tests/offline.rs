//! Tests that build small OSMViews-shaped GeoTIFFs in memory and run them
//! through header parsing, tile location, tile decoding and the tile cache.

use osmviews::cache::Cache;
use osmviews::tiff::{
    parse, power_of_two, read_u16, read_u32, Elem, MaxSample, TileOffset, TileTable, TILE_PIXELS,
};
use osmviews::tile::{decode_tile, tile_samples, TILE_BYTES};
use osmviews::{Error, Header};

const ENTRY_COUNT: usize = 12;
const TILE_OFFSETS_POS: usize = 8 + 2 + ENTRY_COUNT * 12 + 4;
const TILE_BYTE_COUNTS_POS: usize = TILE_OFFSETS_POS + 16;

const TYPE_SHORT: u16 = 3;
const TYPE_LONG: u16 = 4;
const TYPE_FLOAT: u16 = 11;

// Pixels of a 512 x 512 raster that lie in a known grid tile; they are where
// (-90, 45), (90, 45), (-90, -45) and (90, -45) project to.
const IN_TILE_TOP_LEFT: (u32, u32) = (128, 184);
const IN_TILE_TOP_RIGHT: (u32, u32) = (384, 184);
const IN_TILE_BOTTOM_LEFT: (u32, u32) = (128, 327);
const IN_TILE_BOTTOM_RIGHT: (u32, u32) = (384, 327);

fn ifd_entry(tag: u16, typ: u16, count: u32, value: [u8; 4]) -> [u8; 12] {
    let mut e = [0u8; 12];
    e[0..2].copy_from_slice(&tag.to_le_bytes());
    e[2..4].copy_from_slice(&typ.to_le_bytes());
    e[4..8].copy_from_slice(&count.to_le_bytes());
    e[8..12].copy_from_slice(&value);
    e
}

fn short(v: u16) -> [u8; 4] {
    let b = v.to_le_bytes();
    [b[0], b[1], 0, 0]
}

/// A 512 x 512 raster of four uniform tiles (top-left, top-right,
/// bottom-left, bottom-right); tiles of equal value share one stored blob.
fn build_tiff(compression: u16, tile_values: [f32; 4], max_value: f32) -> Vec<u8> {
    build_tiff_with(compression, tile_values, max_value, &[])
}

/// Like `build_tiff`, with `extra` IFD entries after the usual ones.
fn build_tiff_with(
    compression: u16,
    tile_values: [f32; 4],
    max_value: f32,
    extra: &[[u8; 12]],
) -> Vec<u8> {
    let entry_count = ENTRY_COUNT + extra.len();
    let offsets_pos = 8 + 2 + entry_count * 12 + 4;
    let counts_pos = offsets_pos + 16;
    let mut blobs: Vec<Vec<u8>> = Vec::new();
    let mut blob_bits: Vec<u32> = Vec::new();
    let mut grid_to_blob = [0usize; 4];
    for (g, &value) in tile_values.iter().enumerate() {
        let idx = match blob_bits.iter().position(|b| *b == value.to_bits()) {
            Some(i) => i,
            None => {
                let raw: Vec<u8> = std::iter::repeat_n(value.to_le_bytes(), TILE_PIXELS)
                    .flatten()
                    .collect();
                let blob = match compression {
                    8 => miniz_oxide::deflate::compress_to_vec_zlib(&raw, 6),
                    _ => raw,
                };
                blobs.push(blob);
                blob_bits.push(value.to_bits());
                blobs.len() - 1
            }
        };
        grid_to_blob[g] = idx;
    }

    let mut blob_pos = Vec::new();
    let mut cursor = counts_pos + 16;
    for blob in &blobs {
        blob_pos.push(cursor as u32);
        cursor += blob.len();
    }
    let tile_offsets: [u32; 4] = std::array::from_fn(|g| blob_pos[grid_to_blob[g]]);
    let tile_byte_counts: [u32; 4] = std::array::from_fn(|g| blobs[grid_to_blob[g]].len() as u32);

    let entries = [
        ifd_entry(256, TYPE_LONG, 1, 512u32.to_le_bytes()),
        ifd_entry(257, TYPE_LONG, 1, 512u32.to_le_bytes()),
        ifd_entry(258, TYPE_SHORT, 1, short(32)),
        ifd_entry(259, TYPE_SHORT, 1, short(compression)),
        ifd_entry(277, TYPE_SHORT, 1, short(1)),
        ifd_entry(284, TYPE_SHORT, 1, short(1)),
        ifd_entry(322, TYPE_SHORT, 1, short(256)),
        ifd_entry(323, TYPE_SHORT, 1, short(256)),
        ifd_entry(324, TYPE_LONG, 4, (offsets_pos as u32).to_le_bytes()),
        ifd_entry(325, TYPE_LONG, 4, (counts_pos as u32).to_le_bytes()),
        ifd_entry(339, TYPE_SHORT, 1, short(3)),
        ifd_entry(341, TYPE_FLOAT, 1, max_value.to_le_bytes()),
    ];

    let mut buf = Vec::new();
    buf.extend_from_slice(b"II");
    buf.extend_from_slice(&42u16.to_le_bytes());
    buf.extend_from_slice(&8u32.to_le_bytes());
    buf.extend_from_slice(&(entry_count as u16).to_le_bytes());
    for e in entries.iter().chain(extra.iter()) {
        buf.extend_from_slice(e);
    }
    buf.extend_from_slice(&0u32.to_le_bytes());
    assert_eq!(buf.len(), offsets_pos);
    for v in tile_offsets {
        buf.extend_from_slice(&v.to_le_bytes());
    }
    for v in tile_byte_counts {
        buf.extend_from_slice(&v.to_le_bytes());
    }
    for blob in &blobs {
        buf.extend_from_slice(blob);
    }
    assert_eq!(buf.len(), cursor);
    buf
}

fn format_message(r: Result<Header, Error>) -> &'static str {
    match r {
        Err(Error::Format(msg)) => msg,
        Err(Error::Io(e)) => panic!("unexpected I/O error {e}"),
        Ok(_) => panic!("expected a format error"),
    }
}

/// Writes the IFD entry `index` of a `build_tiff` file.
fn set_entry(bytes: &mut [u8], index: usize, entry: [u8; 12]) {
    let at = 10 + index * 12;
    bytes[at..at + 12].copy_from_slice(&entry);
}

/// Runs one query through the cache the way a point query does: a hit is
/// answered from the cache, a miss decodes the tile and inserts it.
fn query(header: &Header, data: &[u8], cache: &mut Cache, pixel: (u32, u32)) -> Option<u32> {
    let tile = header.locate(data, pixel.0, pixel.1);
    assert!(cache.has_headroom());
    if let Some(bits) = cache.lookup(tile.offset, tile.pixel) {
        return Some(bits);
    }
    let raw = tile.bytes_in(data)?;
    let samples = decode_tile(header.compression(), raw)?;
    let value = samples.get(tile.pixel).copied();
    cache.insert(tile.offset, samples, 1000);
    value
}

fn max_of(header: &Header) -> f64 {
    match header.max_value() {
        MaxSample::Single(b) => f64::from(f32::from_bits(b)),
        MaxSample::Double(b) => f64::from_bits(b),
    }
}

fn sample_at(header: &Header, data: &[u8], pixel: (u32, u32)) -> f32 {
    let tile = header.locate(data, pixel.0, pixel.1);
    let raw = tile.bytes_in(data).expect("tile lies in the file");
    let samples = decode_tile(header.compression(), raw).expect("tile decodes");
    f32::from_bits(samples[tile.pixel])
}

#[test]
fn rejects_non_tiff() {
    let r = parse(b"this is definitely not a TIFF file, sorry");
    assert!(matches!(r, Err(Error::Format(_))));
}

#[test]
fn rejects_big_endian() {
    let mut bytes = build_tiff(8, [1.0; 4], 10.0);
    bytes[0] = b'M';
    bytes[1] = b'M';
    assert!(matches!(parse(&bytes), Err(Error::Format(_))));
}

#[test]
fn rejects_bigtiff_version() {
    let mut bytes = build_tiff(8, [1.0; 4], 10.0);
    bytes[2] = 43;
    bytes[3] = 0;
    assert!(matches!(parse(&bytes), Err(Error::Format(_))));
}

#[test]
fn rejects_truncated_file() {
    let bytes = build_tiff(8, [1.0, 2.0, 3.0, 4.0], 10.0);
    assert!(matches!(parse(&bytes[..bytes.len() / 2]), Err(Error::Format(_))));
}

#[test]
fn rejects_tile_offset_past_end_of_file() {
    let mut bytes = build_tiff(8, [1.0, 2.0, 3.0, 4.0], 10.0);
    bytes[TILE_OFFSETS_POS..TILE_OFFSETS_POS + 4].copy_from_slice(&0xFFFF_FF00u32.to_le_bytes());
    assert!(matches!(parse(&bytes), Err(Error::Format(_))));
}

#[test]
fn rejection_messages_name_the_first_failed_check() {
    assert_eq!(format_message(parse(b"II*\0")), "not a TIFF (file too short)");
    assert_eq!(
        format_message(parse(b"this is definitely not a TIFF file, sorry")),
        "not a TIFF"
    );
    let good = build_tiff(8, [1.0, 2.0, 3.0, 4.0], 10.0);

    let mut b = good.clone();
    b[0] = b'M';
    b[1] = b'M';
    assert_eq!(format_message(parse(&b)), "big-endian TIFF is not supported");

    let mut b = good.clone();
    b[2] = 43;
    assert_eq!(format_message(parse(&b)), "BigTIFF is not supported");

    let mut b = good.clone();
    b[2] = 44;
    assert_eq!(format_message(parse(&b)), "not a TIFF (unrecognized version)");

    let mut b = good.clone();
    b[4..8].copy_from_slice(&0xFFFF_0000u32.to_le_bytes());
    assert_eq!(format_message(parse(&b)), "truncated file");

    assert_eq!(format_message(parse(&good[..100])), "truncated IFD");

    let mut b = good.clone();
    set_entry(&mut b, 1, ifd_entry(257, TYPE_LONG, 1, 1024u32.to_le_bytes()));
    assert_eq!(format_message(parse(&b)), "raster is not square");

    let mut b = good.clone();
    set_entry(&mut b, 1, ifd_entry(999, TYPE_LONG, 1, 512u32.to_le_bytes()));
    assert_eq!(format_message(parse(&b)), "missing image dimensions");

    let mut b = good.clone();
    set_entry(&mut b, 0, ifd_entry(256, TYPE_LONG, 1, 768u32.to_le_bytes()));
    set_entry(&mut b, 1, ifd_entry(257, TYPE_LONG, 1, 768u32.to_le_bytes()));
    assert_eq!(format_message(parse(&b)), "unexpected raster size");

    let mut b = good.clone();
    set_entry(&mut b, 6, ifd_entry(322, TYPE_SHORT, 1, short(128)));
    assert_eq!(format_message(parse(&b)), "unexpected tile size");

    let mut b = good.clone();
    set_entry(&mut b, 10, ifd_entry(339, TYPE_SHORT, 1, short(1)));
    assert_eq!(format_message(parse(&b)), "samples are not 32-bit float");

    let mut b = good.clone();
    set_entry(&mut b, 4, ifd_entry(277, TYPE_SHORT, 1, short(3)));
    assert_eq!(format_message(parse(&b)), "expected a single sample per pixel");

    let mut b = good.clone();
    set_entry(&mut b, 5, ifd_entry(284, TYPE_SHORT, 1, short(2)));
    assert_eq!(format_message(parse(&b)), "unexpected planar configuration");

    let mut b = good.clone();
    set_entry(&mut b, 3, ifd_entry(259, TYPE_SHORT, 1, short(5)));
    assert_eq!(format_message(parse(&b)), "unsupported compression");

    let mut b = good.clone();
    set_entry(&mut b, 11, ifd_entry(341, TYPE_FLOAT, 1, f32::INFINITY.to_le_bytes()));
    assert_eq!(format_message(parse(&b)), "SMaxSampleValue is not finite");

    let mut b = good.clone();
    set_entry(&mut b, 11, ifd_entry(999, TYPE_FLOAT, 1, 10.0f32.to_le_bytes()));
    assert_eq!(format_message(parse(&b)), "missing SMaxSampleValue");

    let mut b = good.clone();
    set_entry(&mut b, 8, ifd_entry(999, TYPE_LONG, 4, (TILE_OFFSETS_POS as u32).to_le_bytes()));
    assert_eq!(format_message(parse(&b)), "missing TileOffsets");

    let mut b = good.clone();
    set_entry(&mut b, 9, ifd_entry(999, TYPE_LONG, 4, (TILE_OFFSETS_POS as u32).to_le_bytes()));
    assert_eq!(format_message(parse(&b)), "missing TileByteCounts");

    let mut b = good.clone();
    set_entry(&mut b, 8, ifd_entry(324, TYPE_FLOAT, 4, (TILE_OFFSETS_POS as u32).to_le_bytes()));
    assert_eq!(format_message(parse(&b)), "unexpected tile-table element type");

    let mut b = good.clone();
    set_entry(&mut b, 8, ifd_entry(324, TYPE_LONG, 3, (TILE_OFFSETS_POS as u32).to_le_bytes()));
    assert_eq!(
        format_message(parse(&b)),
        "tile-table length does not match the tile grid"
    );

    let mut b = good.clone();
    set_entry(&mut b, 8, ifd_entry(324, TYPE_LONG, 4, 0xFFFF_FF00u32.to_le_bytes()));
    assert_eq!(format_message(parse(&b)), "tile table extends past end of file");

    let mut b = good.clone();
    b[TILE_BYTE_COUNTS_POS..TILE_BYTE_COUNTS_POS + 4].copy_from_slice(&0u32.to_le_bytes());
    assert_eq!(format_message(parse(&b)), "invalid tile entry");

    let mut b = good.clone();
    b[TILE_OFFSETS_POS..TILE_OFFSETS_POS + 4].copy_from_slice(&4u32.to_le_bytes());
    assert_eq!(format_message(parse(&b)), "invalid tile entry");

    let mut b = good.clone();
    b[TILE_OFFSETS_POS + 12..TILE_OFFSETS_POS + 16]
        .copy_from_slice(&0xFFFF_FF00u32.to_le_bytes());
    assert_eq!(format_message(parse(&b)), "tile data extends past end of file");
}

#[test]
fn predictor_one_is_accepted_and_others_are_not() {
    let values = [1.0, 2.0, 3.0, 4.0];
    let one = [ifd_entry(317, TYPE_SHORT, 1, short(1))];
    assert!(parse(&build_tiff_with(8, values, 10.0, &one)).is_ok());
    let two = [ifd_entry(317, TYPE_SHORT, 1, short(2))];
    assert_eq!(
        format_message(parse(&build_tiff_with(8, values, 10.0, &two))),
        "TIFF predictor is not supported"
    );
}

#[test]
fn the_last_entry_of_a_repeated_tag_wins() {
    let values = [1.0, 2.0, 3.0, 4.0];
    let wider = [ifd_entry(256, TYPE_LONG, 1, 1024u32.to_le_bytes())];
    assert_eq!(
        format_message(parse(&build_tiff_with(8, values, 10.0, &wider))),
        "raster is not square"
    );
    let same = [ifd_entry(256, TYPE_SHORT, 1, short(512))];
    assert!(parse(&build_tiff_with(8, values, 10.0, &same)).is_ok());
}

#[test]
fn parses_the_fixture_header() {
    let bytes = build_tiff(8, [1.0, 2.0, 3.0, 4.0], 10.0);
    let header = parse(&bytes).unwrap();
    assert_eq!(header.size(), 512);
    assert_eq!(header.tiles_across(), 2);
    assert_eq!(header.compression(), 8);
    assert_eq!(header.max_value(), MaxSample::Single(10.0f32.to_bits()));
    assert_eq!(header.file_len(), bytes.len());
}

#[test]
fn double_max_sample_value_is_read_out_of_line() {
    let mut b = build_tiff(1, [1.0, 2.0, 3.0, 4.0], 10.0);
    let at = b.len() as u32;
    b.extend_from_slice(&12.5f64.to_le_bytes());
    set_entry(&mut b, 11, ifd_entry(341, 12, 1, at.to_le_bytes()));
    let header = parse(&b).unwrap();
    assert_eq!(header.max_value(), MaxSample::Double(12.5f64.to_bits()));
    assert_eq!(max_of(&header), 12.5);
}

#[test]
fn locate_finds_grid_tile_and_pixel() {
    let bytes = build_tiff(8, [1.0, 2.0, 3.0, 4.0], 10.0);
    let header = parse(&bytes).unwrap();
    let t = header.locate(&bytes, 300, 5);
    assert_eq!(t.grid_index, 1);
    assert_eq!(t.pixel, 5 * 256 + 44);
    let b = header.locate(&bytes, 3, 511);
    assert_eq!(b.grid_index, 2);
    assert_eq!(b.pixel, 255 * 256 + 3);
    let raw = b.bytes_in(&bytes).unwrap();
    assert_eq!(raw.len() as u64, b.byte_count);
}

#[test]
fn samples_scale_against_the_planetary_maximum() {
    let bytes = build_tiff(8, [3.0, 0.0, 10.0, 10.0], 10.0);
    let header = parse(&bytes).unwrap();
    let max = max_of(&header);
    let v = f64::from(sample_at(&header, &bytes, IN_TILE_TOP_LEFT)) / max;
    assert!((v - 0.3).abs() < 1e-6);
    assert_eq!(f64::from(sample_at(&header, &bytes, IN_TILE_TOP_RIGHT)) / max, 0.0);
    assert_eq!(f64::from(sample_at(&header, &bytes, IN_TILE_BOTTOM_LEFT)) / max, 1.0);
    assert_eq!(f64::from(sample_at(&header, &bytes, (256, 256))) / max, 1.0);
}

#[test]
fn uncompressed_tile_samples_decode() {
    let bytes = build_tiff(1, [5.0, 5.0, 5.0, 5.0], 10.0);
    let header = parse(&bytes).unwrap();
    assert_eq!(header.compression(), 1);
    let v = f64::from(sample_at(&header, &bytes, IN_TILE_TOP_LEFT)) / max_of(&header);
    assert!((v - 0.5).abs() < 1e-6);
}

#[test]
fn compressed_tiles_are_inflated() {
    let mut raw = Vec::new();
    for i in 0..TILE_PIXELS as u32 {
        raw.extend_from_slice(&i.to_le_bytes());
    }
    let blob = miniz_oxide::deflate::compress_to_vec_zlib(&raw, 6);
    assert!(blob.len() < raw.len());
    let samples = decode_tile(8, &blob).unwrap();
    assert_eq!(samples.len(), TILE_PIXELS);
    assert_eq!(samples[0], 0);
    assert_eq!(samples[12345], 12345);
    assert_eq!(samples[TILE_PIXELS - 1], TILE_PIXELS as u32 - 1);
    // The same blob, read as if it were stored uncompressed, is not a tile.
    assert_eq!(decode_tile(1, &blob), None);
}

#[test]
fn tiles_of_the_wrong_size_do_not_decode() {
    assert_eq!(tile_samples(&[0u8; 16]), None);
    assert_eq!(decode_tile(1, &vec![0u8; TILE_BYTES - 4]), None);
    let big = miniz_oxide::deflate::compress_to_vec_zlib(&vec![7u8; TILE_BYTES + 8], 6);
    assert_eq!(decode_tile(8, &big), None);
    assert_eq!(decode_tile(8, b"not zlib at all"), None);
    let mut exact = vec![0u8; TILE_BYTES];
    exact[4] = 1;
    exact[7] = 0x80;
    let samples = tile_samples(&exact).unwrap();
    assert_eq!(samples[1], 0x8000_0001);
}

#[test]
fn little_endian_readers() {
    let data = [0x34, 0x12, 0x78, 0x56, 0xff];
    assert_eq!(read_u16(&data, 0).unwrap(), 0x1234);
    assert_eq!(read_u32(&data, 0).unwrap(), 0x5678_1234);
    assert!(matches!(read_u16(&data, 4), Err(Error::Format("truncated file"))));
    assert!(matches!(read_u32(&data, 2), Err(Error::Format("truncated file"))));
    assert!(matches!(read_u16(&data, usize::MAX), Err(Error::Format(_))));
    assert_eq!(Elem::from_type(3), Some(Elem::Short));
    assert_eq!(Elem::from_type(4), Some(Elem::Long));
    assert_eq!(Elem::from_type(11), None);
    assert_eq!(Elem::Short.size(), 2);
    assert_eq!(Elem::Long.size(), 4);
    let shorts = TileTable { pos: 1, elem: Elem::Short };
    assert_eq!(shorts.get(&data, 0), 0x7812);
    let shorts = TileTable { pos: 0, elem: Elem::Short };
    assert_eq!(shorts.get(&data, 1), 0x5678);
    let longs = TileTable { pos: 0, elem: Elem::Long };
    assert_eq!(longs.get(&data, 0), 0x5678_1234);
}

#[test]
fn max_sample_finiteness_follows_the_exponent_bits() {
    assert!(MaxSample::Single(10.0f32.to_bits()).is_finite());
    assert!(!MaxSample::Single(f32::INFINITY.to_bits()).is_finite());
    assert!(!MaxSample::Single(f32::NAN.to_bits()).is_finite());
    assert!(MaxSample::Double(f64::MAX.to_bits()).is_finite());
    assert!(!MaxSample::Double(f64::NEG_INFINITY.to_bits()).is_finite());
    assert!(!MaxSample::Double(f64::NAN.to_bits()).is_finite());
}

#[test]
fn power_of_two_check() {
    assert!(power_of_two(1));
    assert!(power_of_two(256));
    assert!(power_of_two(1 << 31));
    assert!(!power_of_two(0));
    assert!(!power_of_two(768));
    assert!(!power_of_two(u32::MAX));
}

#[test]
fn shared_tiles_use_one_cache_entry() {
    // Bottom-left and bottom-right tiles have the same value -> one blob.
    let bytes = build_tiff(8, [3.0, 0.0, 7.0, 7.0], 10.0);
    let header = parse(&bytes).unwrap();
    let mut cache = Cache::new(64);
    let a = query(&header, &bytes, &mut cache, IN_TILE_BOTTOM_LEFT);
    let b = query(&header, &bytes, &mut cache, IN_TILE_BOTTOM_RIGHT);
    assert_eq!(a, Some(7.0f32.to_bits()));
    assert_eq!(b, Some(7.0f32.to_bits()));
    let m = cache.metrics();
    assert_eq!(m.tiles_cached, 1);
    assert_eq!(m.tiles_decoded, 1);
    assert_eq!(m.tile_cache_misses, 1);
    assert_eq!(m.tile_cache_hits, 1);
}

#[test]
fn cache_counts_queries_evictions_and_misses() {
    let bytes = build_tiff(8, [1.0, 2.0, 3.0, 4.0], 10.0);
    let header = parse(&bytes).unwrap();
    let mut cache = Cache::new(2);
    for p in [IN_TILE_TOP_LEFT, IN_TILE_TOP_RIGHT, IN_TILE_BOTTOM_LEFT, IN_TILE_BOTTOM_RIGHT] {
        assert!(query(&header, &bytes, &mut cache, p).is_some());
    }
    cache.record_out_of_range();
    let m = cache.metrics();
    assert_eq!(m.queries, 5);
    assert_eq!(m.out_of_range, 1);
    assert_eq!(m.tile_cache_misses, 4);
    assert_eq!(m.tile_cache_hits, 0);
    assert_eq!(m.tiles_cached, 2);
    assert_eq!(m.tile_cache_capacity, 2);
    assert_eq!(m.tile_cache_evictions, 2);
    assert!(m.decode_time > std::time::Duration::ZERO);
}

#[test]
fn disabled_cache_still_answers_and_never_stores() {
    let bytes = build_tiff(8, [3.0, 0.0, 7.0, 7.0], 10.0);
    let header = parse(&bytes).unwrap();
    let max = max_of(&header);
    let mut cache = Cache::new(0);
    let a = query(&header, &bytes, &mut cache, IN_TILE_TOP_LEFT).unwrap();
    let b = query(&header, &bytes, &mut cache, IN_TILE_TOP_LEFT).unwrap();
    assert!((f64::from(f32::from_bits(a)) / max - 0.3).abs() < 1e-6);
    assert!((f64::from(f32::from_bits(b)) / max - 0.3).abs() < 1e-6);
    let m = cache.metrics();
    assert_eq!(m.tiles_cached, 0);
    assert_eq!(m.tiles_decoded, 2);
    assert_eq!(m.tile_cache_hits, 0);
}

#[test]
fn lookup_after_insert_returns_the_inserted_samples() {
    let mut cache = Cache::new(4);
    assert_eq!(cache.lookup(TileOffset(100), 3), None);
    cache.insert(TileOffset(100), vec![10, 11, 12, 13], 5);
    assert_eq!(cache.lookup(TileOffset(100), 3), Some(13));
    assert_eq!(cache.lookup(TileOffset(100), 4), None);
    assert_eq!(cache.lookup(TileOffset(101), 0), None);
    let m = cache.metrics();
    assert_eq!(m.queries, 4);
    assert_eq!(m.tile_cache_hits, 2);
    assert_eq!(m.tile_cache_misses, 2);
    assert_eq!(m.tile_cache_hits + m.tile_cache_misses, m.queries - m.out_of_range);
    assert_eq!(m.decode_time, std::time::Duration::from_nanos(5));
}

#[test]
fn the_least_recently_used_tile_is_evicted() {
    let mut cache = Cache::new(2);
    cache.insert(TileOffset(1), vec![1], 0);
    cache.insert(TileOffset(2), vec![2], 0);
    // Touch tile 1, so tile 2 is now the least recently used.
    assert_eq!(cache.lookup(TileOffset(1), 0), Some(1));
    cache.insert(TileOffset(3), vec![3], 0);
    assert_eq!(cache.lookup(TileOffset(2), 0), None);
    assert_eq!(cache.lookup(TileOffset(1), 0), Some(1));
    assert_eq!(cache.lookup(TileOffset(3), 0), Some(3));
    let m = cache.metrics();
    assert_eq!(m.tile_cache_evictions, 1);
    assert_eq!(m.tiles_cached, 2);
    // Re-inserting a held tile replaces it without evicting.
    cache.insert(TileOffset(3), vec![33], 0);
    assert_eq!(cache.lookup(TileOffset(3), 0), Some(33));
    assert_eq!(cache.metrics().tile_cache_evictions, 1);
}

#[test]
fn decode_time_saturates() {
    let mut cache = Cache::new(1);
    cache.insert(TileOffset(1), vec![], u128::MAX);
    cache.insert(TileOffset(2), vec![], 7);
    assert_eq!(cache.metrics().decode_time, std::time::Duration::from_nanos(u64::MAX));
}

#[test]
fn a_new_cache_reports_nothing() {
    let m = Cache::new(3).metrics();
    assert_eq!(m.queries, 0);
    assert_eq!(m.tiles_cached, 0);
    assert_eq!(m.tile_cache_capacity, 3);
    assert_eq!(m.decode_time, std::time::Duration::ZERO);
}

#[test]
fn cached_answers_equal_decoded_answers() {
    let bytes = build_tiff(8, [1.0, 2.0, 2.0, 4.0], 10.0);
    let header = parse(&bytes).unwrap();
    let points = [
        IN_TILE_TOP_LEFT,
        (0, 0),
        IN_TILE_BOTTOM_RIGHT,
        IN_TILE_TOP_RIGHT,
        IN_TILE_TOP_LEFT,
        IN_TILE_BOTTOM_LEFT,
        (511, 511),
        IN_TILE_TOP_RIGHT,
    ];
    for capacity in [0, 1, 2, 64] {
        let mut cache = Cache::new(capacity);
        for p in points {
            let answer = query(&header, &bytes, &mut cache, p).unwrap();
            assert_eq!(f32::from_bits(answer), sample_at(&header, &bytes, p));
        }
    }
}
