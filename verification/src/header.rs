use crate::blob::Blob;
use crate::byte_range::ByteRange;
use crate::byteops::{
    be_u16_val, be_u32_val, be_u64_val, lemma_u16_be_roundtrip, lemma_u32_be_roundtrip,
    lemma_u64_be_roundtrip, push_u16_be, push_u32_be, push_u64_be, read_u16_be, read_u32_be,
    read_u64_be, u16_be_bytes, u32_be_bytes, u64_be_bytes,
};
use crate::compression::Compression;
use crate::error::TileError;
use crate::tile_format::TileFormat;
use vstd::prelude::*;

verus! {

/// The length of the fixed file header at offset 0.
pub const HEADER_LENGTH: usize = 62;

/// The 14 ASCII magic bytes that open every container: `"versatiles_v02"`.
pub open spec fn spec_magic() -> Seq<u8> {
    seq![
        0x76u8, 0x65, 0x72, 0x73, 0x61, 0x74, 0x69, 0x6c, 0x65, 0x73, 0x5f, 0x76, 0x30, 0x32,
    ]
}

/// Byte `i` of the magic.
pub fn magic_byte(i: usize) -> (r: u8)
    requires
        i < 14,
    ensures
        r == spec_magic()[i as int],
{
    match i {
        0 => 0x76,
        1 => 0x65,
        2 => 0x72,
        3 => 0x73,
        4 => 0x61,
        5 => 0x74,
        6 => 0x69,
        7 => 0x6c,
        8 => 0x65,
        9 => 0x73,
        10 => 0x5f,
        11 => 0x76,
        12 => 0x30,
        13 => 0x32,
        _ => 0,
    }
}

/// The unsigned 32-bit two's-complement image of a signed micro-degree value.
pub open spec fn i32_bits(x: i32) -> u32 {
    if x >= 0 {
        x as u32
    } else {
        (x + 0x100000000) as u32
    }
}

/// The signed value whose two's-complement image is `u`.
pub open spec fn i32_from_bits(u: u32) -> i32 {
    if u < 0x80000000 {
        u as i32
    } else {
        (u - 0x100000000) as i32
    }
}

/// The two's-complement image, executable.
pub fn i32_to_bits(x: i32) -> (r: u32)
    ensures
        r == i32_bits(x),
        i32_from_bits(r) == x,
{
    if x >= 0 {
        x as u32
    } else {
        let wide: i64 = (x as i64) + 0x100000000;
        wide as u32
    }
}

/// Reads the two's-complement image back, executable.
pub fn bits_to_i32(u: u32) -> (r: i32)
    ensures
        r == i32_from_bits(u),
        i32_bits(r) == u,
{
    if u < 0x80000000 {
        u as i32
    } else {
        let wide: i64 = (u as i64) - 0x100000000;
        wide as i32
    }
}

/// The fixed-size record at offset 0 of a container.
///
/// The byte layout (offsets within the 62 bytes, all integers big-endian):
/// 14 bytes magic, 1 byte tile-format tag, 1 byte compression tag,
/// `u16` zoom-min, `u16` zoom-max, four `i32` micro-degree bounds
/// (west, south, east, north), `u64` metadata offset, `u64` metadata
/// length, `u64` block-index offset, two reserved zero bytes.
///
/// The block index runs from its offset to the end of the file, so its
/// length is not stored; a reader computes it from the file size.
#[derive(Clone, Copy, Debug, PartialEq, Eq, Structural)]
pub struct FileHeader {
    pub tile_format: TileFormat,
    pub compression: Compression,
    pub zoom_min: u16,
    pub zoom_max: u16,
    pub bbox_west: i32,
    pub bbox_south: i32,
    pub bbox_east: i32,
    pub bbox_north: i32,
    pub meta_range: ByteRange,
    pub blocks_range: ByteRange,
}

/// The 62 bytes of a header.
pub open spec fn spec_header_bytes(h: FileHeader) -> Seq<u8> {
    spec_magic() + seq![h.tile_format.spec_tag(), h.compression.spec_tag()] + u16_be_bytes(
        h.zoom_min,
    ) + u16_be_bytes(h.zoom_max) + u32_be_bytes(i32_bits(h.bbox_west)) + u32_be_bytes(
        i32_bits(h.bbox_south),
    ) + u32_be_bytes(i32_bits(h.bbox_east)) + u32_be_bytes(i32_bits(h.bbox_north)) + u64_be_bytes(
        h.meta_range.offset,
    ) + u64_be_bytes(h.meta_range.length) + u64_be_bytes(h.blocks_range.offset) + seq![0u8, 0u8]
}

/// The format tag of byte 14, as a format.
pub open spec fn spec_format_from_tag(t: u8) -> Option<TileFormat> {
    if t == 0 {
        Some(TileFormat::BIN)
    } else if t == 1 {
        Some(TileFormat::PNG)
    } else if t == 2 {
        Some(TileFormat::JPG)
    } else if t == 3 {
        Some(TileFormat::WEBP)
    } else if t == 4 {
        Some(TileFormat::AVIF)
    } else if t == 5 {
        Some(TileFormat::SVG)
    } else if t == 6 {
        Some(TileFormat::PBF)
    } else if t == 7 {
        Some(TileFormat::GEOJSON)
    } else if t == 8 {
        Some(TileFormat::TOPOJSON)
    } else if t == 9 {
        Some(TileFormat::JSON)
    } else {
        None
    }
}

/// The compression tag of byte 15, as a compression.
pub open spec fn spec_compression_from_tag(t: u8) -> Option<Compression> {
    if t == 0 {
        Some(Compression::Uncompressed)
    } else if t == 1 {
        Some(Compression::Gzip)
    } else if t == 2 {
        Some(Compression::Brotli)
    } else {
        None
    }
}

/// What parsing the opening bytes of a container gives: the header, or the
/// exact failure. Fewer than 62 bytes are a truncated header; a wrong
/// opening is a bad magic; an unknown format or compression tag is a
/// corrupt record. The block-index length is not stored and reads as zero.
pub open spec fn spec_parse_header(s: Seq<u8>) -> Result<FileHeader, TileError> {
    if s.len() < 62 {
        Err(TileError::TruncatedHeader)
    } else if s.subrange(0, 14) != spec_magic() {
        Err(TileError::BadMagic)
    } else {
        match (spec_format_from_tag(s[14]), spec_compression_from_tag(s[15])) {
            (Some(tile_format), Some(compression)) => Ok(
                FileHeader {
                    tile_format,
                    compression,
                    zoom_min: be_u16_val(s.subrange(16, 18)) as u16,
                    zoom_max: be_u16_val(s.subrange(18, 20)) as u16,
                    bbox_west: i32_from_bits(be_u32_val(s.subrange(20, 24)) as u32),
                    bbox_south: i32_from_bits(be_u32_val(s.subrange(24, 28)) as u32),
                    bbox_east: i32_from_bits(be_u32_val(s.subrange(28, 32)) as u32),
                    bbox_north: i32_from_bits(be_u32_val(s.subrange(32, 36)) as u32),
                    meta_range: ByteRange {
                        offset: be_u64_val(s.subrange(36, 44)) as u64,
                        length: be_u64_val(s.subrange(44, 52)) as u64,
                    },
                    blocks_range: ByteRange {
                        offset: be_u64_val(s.subrange(52, 60)) as u64,
                        length: 0,
                    },
                },
            ),
            _ => Err(TileError::CorruptIndex),
        }
    }
}

impl FileHeader {
    /// A header for a fresh container: the given format and compression,
    /// everything else zero until the conversion fills it in.
    pub fn new(tile_format: &TileFormat, compression: &Compression) -> (r: FileHeader)
        ensures
            r.tile_format == *tile_format,
            r.compression == *compression,
            r.zoom_min == 0 && r.zoom_max == 0,
            r.bbox_west == 0 && r.bbox_south == 0 && r.bbox_east == 0 && r.bbox_north == 0,
            r.meta_range == (ByteRange { offset: 0, length: 0 }),
            r.blocks_range == (ByteRange { offset: 0, length: 0 }),
    {
        FileHeader {
            tile_format: *tile_format,
            compression: *compression,
            zoom_min: 0,
            zoom_max: 0,
            bbox_west: 0,
            bbox_south: 0,
            bbox_east: 0,
            bbox_north: 0,
            meta_range: ByteRange::empty(),
            blocks_range: ByteRange::empty(),
        }
    }

    /// Serializes the header to its 62 bytes.
    pub fn to_blob(&self) -> (r: Blob)
        ensures
            r@ == spec_header_bytes(*self),
            r@.len() == HEADER_LENGTH,
    {
        let mut v: Vec<u8> = Vec::new();
        let mut i: usize = 0;
        while i < 14
            invariant
                i <= 14,
                v@ =~= spec_magic().take(i as int),
            decreases 14 - i,
        {
            v.push(magic_byte(i));
            i = i + 1;
            proof {
                assert(v@ =~= spec_magic().take(i as int));
            }
        }
        proof {
            assert(v@ =~= spec_magic());
        }
        v.push(self.tile_format.tag());
        v.push(self.compression.tag());
        push_u16_be(&mut v, self.zoom_min);
        push_u16_be(&mut v, self.zoom_max);
        push_u32_be(&mut v, i32_to_bits(self.bbox_west));
        push_u32_be(&mut v, i32_to_bits(self.bbox_south));
        push_u32_be(&mut v, i32_to_bits(self.bbox_east));
        push_u32_be(&mut v, i32_to_bits(self.bbox_north));
        push_u64_be(&mut v, self.meta_range.offset);
        push_u64_be(&mut v, self.meta_range.length);
        push_u64_be(&mut v, self.blocks_range.offset);
        v.push(0);
        v.push(0);
        proof {
            assert(v@ =~= spec_header_bytes(*self));
        }
        Blob::new(v)
    }

    /// Parses the opening bytes of a container.
    pub fn from_bytes(v: &Vec<u8>) -> (r: Result<FileHeader, TileError>)
        ensures
            r == spec_parse_header(v@),
    {
        if v.len() < HEADER_LENGTH {
            proof {
                assert(spec_parse_header(v@) is Err);
            }
            return Err(TileError::TruncatedHeader);
        }
        let mut i: usize = 0;
        while i < 14
            invariant
                i <= 14,
                v@.len() >= 62,
                forall|j: int| 0 <= j < i ==> v@[j] == spec_magic()[j],
            decreases 14 - i,
        {
            if v[i] != magic_byte(i) {
                proof {
                    assert(v@.subrange(0, 14)[i as int] != spec_magic()[i as int]);
                }
                return Err(TileError::BadMagic);
            }
            i = i + 1;
        }
        proof {
            assert(v@.subrange(0, 14) =~= spec_magic());
        }
        let tile_format = match TileFormat::from_tag(v[14]) {
            Some(f) => f,
            None => {
                return Err(TileError::CorruptIndex);
            },
        };
        let compression = match Compression::from_tag(v[15]) {
            Some(c) => c,
            None => {
                return Err(TileError::CorruptIndex);
            },
        };
        proof {
            lemma_format_tag_unique(tile_format, v@[14]);
            lemma_compression_tag_unique(compression, v@[15]);
        }
        let zoom_min = read_u16_be(v, 16);
        let zoom_max = read_u16_be(v, 18);
        let bbox_west = bits_to_i32(read_u32_be(v, 20));
        let bbox_south = bits_to_i32(read_u32_be(v, 24));
        let bbox_east = bits_to_i32(read_u32_be(v, 28));
        let bbox_north = bits_to_i32(read_u32_be(v, 32));
        let meta_offset = read_u64_be(v, 36);
        let meta_length = read_u64_be(v, 44);
        let blocks_offset = read_u64_be(v, 52);
        Ok(
            FileHeader {
                tile_format,
                compression,
                zoom_min,
                zoom_max,
                bbox_west,
                bbox_south,
                bbox_east,
                bbox_north,
                meta_range: ByteRange { offset: meta_offset, length: meta_length },
                blocks_range: ByteRange { offset: blocks_offset, length: 0 },
            },
        )
    }
}

/// A format tag determines the format: `from_tag` inverts `tag`.
proof fn lemma_format_tag_unique(f: TileFormat, t: u8)
    requires
        f.spec_tag() == t,
    ensures
        spec_format_from_tag(t) == Some(f),
{
}

/// A compression tag determines the compression.
proof fn lemma_compression_tag_unique(c: Compression, t: u8)
    requires
        c.spec_tag() == t,
    ensures
        spec_compression_from_tag(t) == Some(c),
{
}

/// Serializing a header and parsing the bytes back gives the header, with
/// the one unstored field, the block-index length, reading as zero.
#[verifier::rlimit(60)]
pub proof fn lemma_header_roundtrip(h: FileHeader)
    ensures
        spec_parse_header(spec_header_bytes(h)) == Ok::<FileHeader, TileError>(
            FileHeader {
                blocks_range: ByteRange { offset: h.blocks_range.offset, length: 0 },
                ..h
            },
        ),
{
    let s = spec_header_bytes(h);
    assert(s.len() == 62);
    assert(s.subrange(0, 14) =~= spec_magic());
    assert(s[14] == h.tile_format.spec_tag());
    assert(s[15] == h.compression.spec_tag());
    lemma_format_tag_unique(h.tile_format, s[14]);
    lemma_compression_tag_unique(h.compression, s[15]);
    assert(s.subrange(16, 18) =~= u16_be_bytes(h.zoom_min));
    assert(s.subrange(18, 20) =~= u16_be_bytes(h.zoom_max));
    assert(s.subrange(20, 24) =~= u32_be_bytes(i32_bits(h.bbox_west)));
    assert(s.subrange(24, 28) =~= u32_be_bytes(i32_bits(h.bbox_south)));
    assert(s.subrange(28, 32) =~= u32_be_bytes(i32_bits(h.bbox_east)));
    assert(s.subrange(32, 36) =~= u32_be_bytes(i32_bits(h.bbox_north)));
    assert(s.subrange(36, 44) =~= u64_be_bytes(h.meta_range.offset));
    assert(s.subrange(44, 52) =~= u64_be_bytes(h.meta_range.length));
    assert(s.subrange(52, 60) =~= u64_be_bytes(h.blocks_range.offset));
    lemma_u16_be_roundtrip(h.zoom_min);
    lemma_u16_be_roundtrip(h.zoom_max);
    lemma_u32_be_roundtrip(i32_bits(h.bbox_west));
    lemma_u32_be_roundtrip(i32_bits(h.bbox_south));
    lemma_u32_be_roundtrip(i32_bits(h.bbox_east));
    lemma_u32_be_roundtrip(i32_bits(h.bbox_north));
    lemma_u64_be_roundtrip(h.meta_range.offset);
    lemma_u64_be_roundtrip(h.meta_range.length);
    lemma_u64_be_roundtrip(h.blocks_range.offset);
}

/// A file that opens with the 62 bytes of a header parses to that header,
/// whatever follows; the unstored block-index length reads as zero.
#[verifier::rlimit(80)]
pub proof fn lemma_header_prefix_parse(file: Seq<u8>, h: FileHeader)
    requires
        file.len() >= 62,
        file.subrange(0, 62) == spec_header_bytes(h),
    ensures
        spec_parse_header(file) == Ok::<FileHeader, TileError>(
            FileHeader {
                blocks_range: ByteRange { offset: h.blocks_range.offset, length: 0 },
                ..h
            },
        ),
{
    let s = spec_header_bytes(h);
    assert(s.len() == 62);
    assert forall|a: int, b: int| 0 <= a <= b <= 62 implies #[trigger] file.subrange(a, b)
        == s.subrange(a, b) by {
        assert forall|i: int| 0 <= i < b - a implies file.subrange(a, b)[i] == s.subrange(
            a,
            b,
        )[i] by {
            assert(file.subrange(0, 62)[a + i] == file[a + i]);
        }
        assert(file.subrange(a, b) =~= s.subrange(a, b));
    }
    assert(s.subrange(0, 14) =~= spec_magic());
    assert(file[14] == file.subrange(14, 15)[0]);
    assert(s.subrange(14, 15)[0] == h.tile_format.spec_tag());
    assert(file[15] == file.subrange(15, 16)[0]);
    assert(s.subrange(15, 16)[0] == h.compression.spec_tag());
    lemma_format_tag_unique(h.tile_format, h.tile_format.spec_tag());
    lemma_compression_tag_unique(h.compression, h.compression.spec_tag());
    assert(s.subrange(16, 18) =~= u16_be_bytes(h.zoom_min));
    assert(s.subrange(18, 20) =~= u16_be_bytes(h.zoom_max));
    assert(s.subrange(20, 24) =~= u32_be_bytes(i32_bits(h.bbox_west)));
    assert(s.subrange(24, 28) =~= u32_be_bytes(i32_bits(h.bbox_south)));
    assert(s.subrange(28, 32) =~= u32_be_bytes(i32_bits(h.bbox_east)));
    assert(s.subrange(32, 36) =~= u32_be_bytes(i32_bits(h.bbox_north)));
    assert(s.subrange(36, 44) =~= u64_be_bytes(h.meta_range.offset));
    assert(s.subrange(44, 52) =~= u64_be_bytes(h.meta_range.length));
    assert(s.subrange(52, 60) =~= u64_be_bytes(h.blocks_range.offset));
    lemma_u16_be_roundtrip(h.zoom_min);
    lemma_u16_be_roundtrip(h.zoom_max);
    lemma_u32_be_roundtrip(i32_bits(h.bbox_west));
    lemma_u32_be_roundtrip(i32_bits(h.bbox_south));
    lemma_u32_be_roundtrip(i32_bits(h.bbox_east));
    lemma_u32_be_roundtrip(i32_bits(h.bbox_north));
    lemma_u64_be_roundtrip(h.meta_range.offset);
    lemma_u64_be_roundtrip(h.meta_range.length);
    lemma_u64_be_roundtrip(h.blocks_range.offset);
}

} // verus!
