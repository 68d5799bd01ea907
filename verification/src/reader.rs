use crate::bbox::TileBBox;
use crate::blob::Blob;
use crate::block_index::{
    spec_parse_block_index, BlockDefinition, BlockIndex, spec_block_key_less,
};
use crate::byteops::copy_range;
use crate::compression::{unbrotli_of, Compression};
use crate::converter::spec_block_entries;
use crate::coords::{TileCoord3, MAX_ZOOM};
use crate::error::TileError;
use crate::header::{spec_parse_header, FileHeader};
use crate::parameters::TileReaderParameters;
use crate::pyramid::{level_bbox_wf, TileBBoxPyramide, ZOOM_LEVELS};
use crate::tile_format::TileFormat;
use crate::tile_index::TileIndex;
use crate::traits::TileReaderTrait;
use vstd::arithmetic::power2::pow2;
use vstd::prelude::*;

verus! {

/// A block matches a coordinate's block cell.
pub open spec fn spec_block_matches(b: BlockDefinition, z: u8, bx: u32, by: u32) -> bool {
    b.level == z && b.x == bx && b.y == by
}

/// The tile bytes a parsed container holds for `coord`: find the block of
/// the coordinate's 256-grid cell, read its tile index, and slice the
/// entry's range out of the file; `None` at every dead end.
pub open spec fn spec_native_tile(
    data: Seq<u8>,
    blocks: Seq<BlockDefinition>,
    coord: TileCoord3,
) -> Option<Seq<u8>> {
    if !coord.spec_valid() {
        None
    } else {
        let bx = coord.x / 256;
        let by = coord.y / 256;
        if exists|k: int|
            0 <= k < blocks.len() && spec_block_matches(#[trigger] blocks[k], coord.z, bx, by) {
            let k = choose|k: int|
                0 <= k < blocks.len() && spec_block_matches(#[trigger] blocks[k], coord.z, bx, by);
            let b = blocks[k];
            let lx = (coord.x % 256) as u32;
            let ly = (coord.y % 256) as u32;
            match spec_block_entries(data, b) {
                None => None,
                Some(entries) => {
                    if entries.len() == b.bbox.spec_count_tiles() && b.bbox.spec_contains(lx, ly) {
                        let e = entries[b.bbox.spec_tile_index(lx, ly)];
                        if e.length == 0 {
                            None
                        } else if e.offset + e.length <= data.len() {
                            Some(data.subrange(e.offset as int, e.offset + e.length))
                        } else {
                            None
                        }
                    } else {
                        None
                    }
                },
            }
        } else {
            None
        }
    }
}

/// A container's bytes open cleanly: the header parses, the metadata range
/// lies within the file, and the block index decompresses, parses, and is
/// strictly ordered by `(level, row, column)`.
pub open spec fn spec_open_ok(data: Seq<u8>) -> bool {
    &&& spec_parse_header(data) is Ok
    &&& ({
        let h = spec_parse_header(data)->Ok_0;
        &&& h.meta_range.offset + h.meta_range.length <= data.len()
        &&& h.blocks_range.offset <= data.len()
        &&& unbrotli_of(data.subrange(h.blocks_range.offset as int, data.len() as int)) is Some
        &&& spec_parse_block_index(
            unbrotli_of(data.subrange(h.blocks_range.offset as int, data.len() as int))->0,
        ) is Some
        &&& ({
            let blocks = spec_parse_block_index(
                unbrotli_of(data.subrange(h.blocks_range.offset as int, data.len() as int))->0,
            )->0;
            forall|i: int, j: int|
                0 <= i < j < blocks.len() ==> spec_block_key_less(
                    #[trigger] blocks[i],
                    #[trigger] blocks[j],
                )
        })
    })
}

/// A reader over a native container held in memory: the header and block
/// index are parsed eagerly, per-block tile indexes are parsed on first
/// use and cached.
#[derive(Debug)]
pub struct TileReader {
    pub data: Vec<u8>,
    pub header: FileHeader,
    pub meta: Blob,
    pub block_index: BlockIndex,
    pub parameters: TileReaderParameters,
    pub tile_index_cache: Vec<Option<TileIndex>>,
}

impl TileReader {
    /// The parsed block list.
    pub open spec fn spec_blocks(&self) -> Seq<BlockDefinition> {
        self.block_index@
    }

    /// Opens a container from its bytes.
    ///
    /// Returns exactly the header-parse error on a malformed opening
    /// (`TruncatedHeader`, `BadMagic`, or `CorruptIndex`), `CorruptIndex`
    /// when a range or the block index is unusable, and a reader otherwise.
    #[verifier::loop_isolation(false)]
    #[verifier::rlimit(100)]
    #[verifier::spinoff_prover]
    pub fn open(data: Vec<u8>) -> (r: Result<TileReader, TileError>)
        ensures
            spec_parse_header(data@) is Err ==> r is Err && r->Err_0 == spec_parse_header(
                data@,
            )->Err_0,
            r is Ok <==> spec_open_ok(data@),
            spec_parse_header(data@) is Ok && !spec_open_ok(data@) ==> r is Err && r->Err_0
                == TileError::CorruptIndex,
            r is Ok ==> ({
                let reader = r->Ok_0;
                &&& reader.spec_wf()
                &&& reader.data@ == data@
                &&& reader.header == spec_parse_header(data@)->Ok_0
                &&& reader.spec_format() == reader.header.tile_format
                &&& reader.spec_compression() == reader.header.compression
                &&& reader.spec_meta() == data@.subrange(
                    reader.header.meta_range.offset as int,
                    reader.header.meta_range.offset + reader.header.meta_range.length,
                )
                &&& reader.spec_blocks() == spec_parse_block_index(
                    unbrotli_of(
                        data@.subrange(reader.header.blocks_range.offset as int, data@.len() as int),
                    )->0,
                )->0
            }),
    {
        let header = match FileHeader::from_bytes(&data) {
            Ok(h) => h,
            Err(e) => {
                return Err(e);
            },
        };
        let n = data.len();
        if !(header.meta_range.offset <= n as u64 && header.meta_range.length <= n as u64
            - header.meta_range.offset) {
            return Err(TileError::CorruptIndex);
        }
        let meta = Blob::new(
            copy_range(&data, header.meta_range.offset as usize, header.meta_range.length as usize),
        );
        if !(header.blocks_range.offset <= n as u64) {
            return Err(TileError::CorruptIndex);
        }
        let blocks_blob = Blob::new(
            copy_range(
                &data,
                header.blocks_range.offset as usize,
                n - header.blocks_range.offset as usize,
            ),
        );
        let block_index = match BlockIndex::from_brotli_blob(&blocks_blob) {
            Ok(bi) => bi,
            Err(e) => {
                return Err(e);
            },
        };
        // the records must be strictly ordered, so that each cell has at
        // most one block
        let mut k: usize = 1;
        while k < block_index.len()
            invariant
                1 <= k,
                block_index@.len() > 0 ==> k <= block_index@.len(),
                forall|i: int, j: int|
                    0 <= i < j < block_index@.len() && j < k ==> spec_block_key_less(
                        #[trigger] block_index@[i],
                        #[trigger] block_index@[j],
                    ),
            decreases block_index@.len() - k,
        {
            let a = *block_index.get(k - 1);
            let b = *block_index.get(k);
            let ok = a.level < b.level || (a.level == b.level && (a.y < b.y || (a.y == b.y && a.x
                < b.x)));
            if !ok {
                return Err(TileError::CorruptIndex);
            }
            proof {
                assert forall|i: int, j: int|
                    0 <= i < j < block_index@.len() && j < k + 1 implies spec_block_key_less(
                    #[trigger] block_index@[i],
                    #[trigger] block_index@[j],
                ) by {
                    if j == k {
                        if i < k - 1 {
                            assert(spec_block_key_less(block_index@[i], block_index@[k - 1]));
                        }
                    }
                }
            }
            k = k + 1;
        }
        // synthesize the pyramid: the bounding rectangle of the blocks'
        // shifted local rectangles, per level
        let mut pyramide = TileBBoxPyramide::new_empty();
        let mut i: usize = 0;
        while i < block_index.len()
            invariant
                i <= block_index@.len(),
                block_index.spec_wf_blocks(),
                pyramide.spec_wf(),
                pyramide@.len() == ZOOM_LEVELS,
                forall|j: int|
                    0 <= j < i ==> {
                        let b = #[trigger] block_index@[j];
                        &&& !pyramide@[b.level as int].spec_is_empty()
                        &&& pyramide@[b.level as int].x_min <= b.x * 256 + b.bbox.x_min
                        &&& pyramide@[b.level as int].y_min <= b.y * 256 + b.bbox.y_min
                        &&& pyramide@[b.level as int].x_max >= b.x * 256 + b.bbox.x_max
                        &&& pyramide@[b.level as int].y_max >= b.y * 256 + b.bbox.y_max
                    },
                forall|z: int|
                    0 <= z < ZOOM_LEVELS && !(#[trigger] pyramide@[z]).spec_is_empty() ==> {
                        &&& (exists|j: int|
                            0 <= j < i && (#[trigger] block_index@[j]).level == z
                                && block_index@[j].x * 256 + block_index@[j].bbox.x_min
                                == pyramide@[z].x_min)
                        &&& (exists|j: int|
                            0 <= j < i && (#[trigger] block_index@[j]).level == z
                                && block_index@[j].y * 256 + block_index@[j].bbox.y_min
                                == pyramide@[z].y_min)
                        &&& (exists|j: int|
                            0 <= j < i && (#[trigger] block_index@[j]).level == z
                                && block_index@[j].x * 256 + block_index@[j].bbox.x_max
                                == pyramide@[z].x_max)
                        &&& (exists|j: int|
                            0 <= j < i && (#[trigger] block_index@[j]).level == z
                                && block_index@[j].y * 256 + block_index@[j].bbox.y_max
                                == pyramide@[z].y_max)
                    },
                forall|z: int|
                    0 <= z < ZOOM_LEVELS && (#[trigger] pyramide@[z]).spec_is_empty() ==> forall|
                        j: int,
                    | 0 <= j < i ==> (#[trigger] block_index@[j]).level != z,
            decreases block_index@.len() - i,
        {
            let b = *block_index.get(i);
            proof {
                assert(b.spec_wf());
                vstd::arithmetic::power2::lemma2_to64();
                if (b.level as nat) < 30 {
                    vstd::arithmetic::power2::lemma_pow2_strictly_increases(b.level as nat, 30);
                }
                assert((b.x as int) * 256 + b.bbox.x_max < 0x40000000);
                assert((b.y as int) * 256 + b.bbox.y_max < 0x40000000);
            }
            let shifted = b.bbox.shifted(b.x * 256, b.y * 256);
            let mut lb = *pyramide.level(b.level);
            let ghost lb0 = lb;
            lb.include_bbox(&shifted);
            proof {
                assert(level_bbox_wf(lb, b.level as int));
            }
            let ghost pyr0 = pyramide@;
            pyramide.set_level(b.level, lb);
            proof {
                let zi = b.level as int;
                assert(pyramide@[zi] == lb);
                assert forall|z: int|
                    0 <= z < ZOOM_LEVELS && !(#[trigger] pyramide@[z]).spec_is_empty() implies {
                    &&& (exists|j: int|
                        0 <= j < i + 1 && (#[trigger] block_index@[j]).level == z
                            && block_index@[j].x * 256 + block_index@[j].bbox.x_min
                            == pyramide@[z].x_min)
                    &&& (exists|j: int|
                        0 <= j < i + 1 && (#[trigger] block_index@[j]).level == z
                            && block_index@[j].y * 256 + block_index@[j].bbox.y_min
                            == pyramide@[z].y_min)
                    &&& (exists|j: int|
                        0 <= j < i + 1 && (#[trigger] block_index@[j]).level == z
                            && block_index@[j].x * 256 + block_index@[j].bbox.x_max
                            == pyramide@[z].x_max)
                    &&& (exists|j: int|
                        0 <= j < i + 1 && (#[trigger] block_index@[j]).level == z
                            && block_index@[j].y * 256 + block_index@[j].bbox.y_max
                            == pyramide@[z].y_max)
                } by {
                    if z == zi {
                        if lb0.spec_is_empty() {
                            assert(block_index@[i as int].level == z && block_index@[i as int].x
                                * 256 + block_index@[i as int].bbox.x_min == pyramide@[z].x_min);
                            assert(block_index@[i as int].y * 256
                                + block_index@[i as int].bbox.y_min == pyramide@[z].y_min);
                            assert(block_index@[i as int].x * 256
                                + block_index@[i as int].bbox.x_max == pyramide@[z].x_max);
                            assert(block_index@[i as int].y * 256
                                + block_index@[i as int].bbox.y_max == pyramide@[z].y_max);
                        } else {
                            if pyramide@[z].x_min == lb0.x_min {
                                let j = choose|j: int|
                                    0 <= j < i && (#[trigger] block_index@[j]).level == z
                                        && block_index@[j].x * 256 + block_index@[j].bbox.x_min
                                        == pyr0[z].x_min;
                                assert(block_index@[j].level == z && block_index@[j].x * 256
                                    + block_index@[j].bbox.x_min == pyramide@[z].x_min);
                            } else {
                                assert(block_index@[i as int].level == z
                                    && block_index@[i as int].x * 256
                                    + block_index@[i as int].bbox.x_min == pyramide@[z].x_min);
                            }
                            if pyramide@[z].y_min == lb0.y_min {
                                let j = choose|j: int|
                                    0 <= j < i && (#[trigger] block_index@[j]).level == z
                                        && block_index@[j].y * 256 + block_index@[j].bbox.y_min
                                        == pyr0[z].y_min;
                                assert(block_index@[j].level == z && block_index@[j].y * 256
                                    + block_index@[j].bbox.y_min == pyramide@[z].y_min);
                            } else {
                                assert(block_index@[i as int].level == z
                                    && block_index@[i as int].y * 256
                                    + block_index@[i as int].bbox.y_min == pyramide@[z].y_min);
                            }
                            if pyramide@[z].x_max == lb0.x_max {
                                let j = choose|j: int|
                                    0 <= j < i && (#[trigger] block_index@[j]).level == z
                                        && block_index@[j].x * 256 + block_index@[j].bbox.x_max
                                        == pyr0[z].x_max;
                                assert(block_index@[j].level == z && block_index@[j].x * 256
                                    + block_index@[j].bbox.x_max == pyramide@[z].x_max);
                            } else {
                                assert(block_index@[i as int].level == z
                                    && block_index@[i as int].x * 256
                                    + block_index@[i as int].bbox.x_max == pyramide@[z].x_max);
                            }
                            if pyramide@[z].y_max == lb0.y_max {
                                let j = choose|j: int|
                                    0 <= j < i && (#[trigger] block_index@[j]).level == z
                                        && block_index@[j].y * 256 + block_index@[j].bbox.y_max
                                        == pyr0[z].y_max;
                                assert(block_index@[j].level == z && block_index@[j].y * 256
                                    + block_index@[j].bbox.y_max == pyramide@[z].y_max);
                            } else {
                                assert(block_index@[i as int].level == z
                                    && block_index@[i as int].y * 256
                                    + block_index@[i as int].bbox.y_max == pyramide@[z].y_max);
                            }
                        }
                    } else {
                        assert(pyramide@[z] == pyr0[z]);
                        let j = choose|j: int|
                            0 <= j < i && (#[trigger] block_index@[j]).level == z
                                && block_index@[j].x * 256 + block_index@[j].bbox.x_min
                                == pyr0[z].x_min;
                        assert(block_index@[j].level == z && block_index@[j].x * 256
                            + block_index@[j].bbox.x_min == pyramide@[z].x_min);
                        let j2 = choose|j: int|
                            0 <= j < i && (#[trigger] block_index@[j]).level == z
                                && block_index@[j].y * 256 + block_index@[j].bbox.y_min
                                == pyr0[z].y_min;
                        assert(block_index@[j2].level == z && block_index@[j2].y * 256
                            + block_index@[j2].bbox.y_min == pyramide@[z].y_min);
                        let j3 = choose|j: int|
                            0 <= j < i && (#[trigger] block_index@[j]).level == z
                                && block_index@[j].x * 256 + block_index@[j].bbox.x_max
                                == pyr0[z].x_max;
                        assert(block_index@[j3].level == z && block_index@[j3].x * 256
                            + block_index@[j3].bbox.x_max == pyramide@[z].x_max);
                        let j4 = choose|j: int|
                            0 <= j < i && (#[trigger] block_index@[j]).level == z
                                && block_index@[j].y * 256 + block_index@[j].bbox.y_max
                                == pyr0[z].y_max;
                        assert(block_index@[j4].level == z && block_index@[j4].y * 256
                            + block_index@[j4].bbox.y_max == pyramide@[z].y_max);
                    }
                }
            }
            i = i + 1;
        }
        let parameters = TileReaderParameters::new(
            header.tile_format,
            header.compression,
            pyramide,
        );
        let mut tile_index_cache: Vec<Option<TileIndex>> = Vec::new();
        let mut c: usize = 0;
        let cache_len = block_index.len();
        while c < cache_len
            invariant
                c <= cache_len,
                tile_index_cache@.len() == c,
                forall|j: int| 0 <= j < c ==> (#[trigger] tile_index_cache@[j]) is None,
            decreases cache_len - c,
        {
            tile_index_cache.push(None);
            c = c + 1;
        }
        Ok(TileReader { data, header, meta, block_index, parameters, tile_index_cache })
    }
}


impl TileReaderTrait for TileReader {
    /// The parsed pieces agree with the bytes, the pyramid is the bounding
    /// rectangle of the blocks per level, and every cached tile index is
    /// the block's parsed index.
    open spec fn spec_wf(&self) -> bool {
        &&& spec_parse_header(self.data@) == Ok::<FileHeader, TileError>(self.header)
        &&& self.header.meta_range.offset + self.header.meta_range.length <= self.data@.len()
        &&& self.meta@ == self.data@.subrange(
            self.header.meta_range.offset as int,
            self.header.meta_range.offset + self.header.meta_range.length,
        )
        &&& self.header.blocks_range.offset <= self.data@.len()
        &&& unbrotli_of(
            self.data@.subrange(self.header.blocks_range.offset as int, self.data@.len() as int),
        ) is Some
        &&& spec_parse_block_index(
            unbrotli_of(
                self.data@.subrange(
                    self.header.blocks_range.offset as int,
                    self.data@.len() as int,
                ),
            )->0,
        ) == Some(self.block_index@)
        &&& self.block_index.spec_wf()
        &&& self.block_index.spec_wf_blocks()
        &&& self.parameters.spec_wf()
        &&& self.parameters.tile_format == self.header.tile_format
        &&& self.parameters.tile_precompression == self.header.compression
        &&& self.parameters.bbox_pyramide@.len() == ZOOM_LEVELS
        &&& forall|j: int|
            0 <= j < self.block_index@.len() ==> {
                let b = #[trigger] self.block_index@[j];
                &&& !self.parameters.bbox_pyramide@[b.level as int].spec_is_empty()
                &&& self.parameters.bbox_pyramide@[b.level as int].x_min <= b.x * 256 + b.bbox.x_min
                &&& self.parameters.bbox_pyramide@[b.level as int].y_min <= b.y * 256 + b.bbox.y_min
                &&& self.parameters.bbox_pyramide@[b.level as int].x_max >= b.x * 256 + b.bbox.x_max
                &&& self.parameters.bbox_pyramide@[b.level as int].y_max >= b.y * 256 + b.bbox.y_max
            }
        &&& forall|z: int|
            0 <= z < ZOOM_LEVELS && !(#[trigger] self.parameters.bbox_pyramide@[z]).spec_is_empty()
                ==> {
                &&& (exists|j: int|
                    0 <= j < self.block_index@.len() && (#[trigger] self.block_index@[j]).level
                        == z && self.block_index@[j].x * 256 + self.block_index@[j].bbox.x_min
                        == self.parameters.bbox_pyramide@[z].x_min)
                &&& (exists|j: int|
                    0 <= j < self.block_index@.len() && (#[trigger] self.block_index@[j]).level
                        == z && self.block_index@[j].y * 256 + self.block_index@[j].bbox.y_min
                        == self.parameters.bbox_pyramide@[z].y_min)
                &&& (exists|j: int|
                    0 <= j < self.block_index@.len() && (#[trigger] self.block_index@[j]).level
                        == z && self.block_index@[j].x * 256 + self.block_index@[j].bbox.x_max
                        == self.parameters.bbox_pyramide@[z].x_max)
                &&& (exists|j: int|
                    0 <= j < self.block_index@.len() && (#[trigger] self.block_index@[j]).level
                        == z && self.block_index@[j].y * 256 + self.block_index@[j].bbox.y_max
                        == self.parameters.bbox_pyramide@[z].y_max)
            }
        &&& forall|z: int|
            0 <= z < ZOOM_LEVELS && (#[trigger] self.parameters.bbox_pyramide@[z]).spec_is_empty()
                ==> forall|j: int|
                0 <= j < self.block_index@.len() ==> (#[trigger] self.block_index@[j]).level != z
        &&& self.tile_index_cache@.len() == self.block_index@.len()
        &&& forall|k: int|
            0 <= k < self.tile_index_cache@.len() && (#[trigger] self.tile_index_cache@[k]) is Some
                ==> {
                &&& spec_block_entries(self.data@, self.block_index@[k]) == Some(
                    self.tile_index_cache@[k]->0@,
                )
                &&& self.tile_index_cache@[k]->0@.len()
                    == self.block_index@[k].bbox.spec_count_tiles()
            }
    }

    open spec fn spec_format(&self) -> TileFormat {
        self.header.tile_format
    }

    open spec fn spec_compression(&self) -> Compression {
        self.header.compression
    }

    open spec fn spec_pyramid(&self) -> Seq<TileBBox> {
        self.parameters.bbox_pyramide@
    }

    open spec fn spec_meta(&self) -> Seq<u8> {
        self.meta@
    }

    open spec fn spec_tile(&self, coord: TileCoord3) -> Option<Seq<u8>> {
        spec_native_tile(self.data@, self.block_index@, coord)
    }

    fn get_parameters(&self) -> (p: &TileReaderParameters) {
        &self.parameters
    }

    fn get_meta(&self) -> (m: Blob) {
        self.meta.clone()
    }

    #[verifier::loop_isolation(false)]
    #[verifier::rlimit(100)]
    #[verifier::spinoff_prover]
    fn get_tile_data(&mut self, coord: &TileCoord3) -> (r: Option<Blob>) {
        if !coord.is_valid() {
            return None;
        }
        let bx = coord.x / 256;
        let by = coord.y / 256;
        let k = match self.block_index.lookup(coord.z, bx, by) {
            Some(k) => k,
            None => {
                return None;
            },
        };
        proof {
            let blocks = self.block_index@;
            assert(spec_block_matches(blocks[k as int], coord.z, bx, by));
            let kk = choose|j: int|
                0 <= j < blocks.len() && spec_block_matches(#[trigger] blocks[j], coord.z, bx, by);
            if kk != k as int {
                if kk < k as int {
                    assert(spec_block_key_less(blocks[kk], blocks[k as int]));
                } else {
                    assert(spec_block_key_less(blocks[k as int], blocks[kk]));
                }
                assert(false);
            }
        }
        let b = *self.block_index.get(k);
        let n = self.data.len();
        let needs_load = match &self.tile_index_cache[k] {
            Some(_) => false,
            None => true,
        };
        if needs_load {
            if !(b.index_range.offset <= n as u64 && b.index_range.length <= n as u64
                - b.index_range.offset) {
                return None;
            }
            let blob = Blob::new(
                copy_range(&self.data, b.index_range.offset as usize, b.index_range.length as usize),
            );
            match TileIndex::from_brotli_blob(&blob) {
                Err(_) => {
                    return None;
                },
                Ok(ti) => {
                    proof {
                        vstd::arithmetic::mul::lemma_mul_upper_bound(
                            b.bbox.spec_width() as int,
                            256,
                            b.bbox.spec_height() as int,
                            256,
                        );
                    }
                    let want = b.count_tiles();
                    if ti.len() as u64 != want {
                        return None;
                    }
                    self.tile_index_cache.set(k, Some(ti));
                },
            }
        }
        let ti = match &self.tile_index_cache[k] {
            Some(t) => t,
            None => unreached(),
        };
        let lx = coord.x % 256;
        let ly = coord.y % 256;
        if !b.bbox.contains(lx, ly) {
            return None;
        }
        proof {
            vstd::arithmetic::mul::lemma_mul_upper_bound(
                b.bbox.spec_width() as int,
                256,
                b.bbox.spec_height() as int,
                256,
            );
        }
        let idx = b.bbox.get_tile_index(lx, ly);
        let e = *ti.get(idx);
        if e.length == 0 {
            return None;
        }
        if !(e.offset <= n as u64 && e.length <= n as u64 - e.offset) {
            return None;
        }
        Some(Blob::new(copy_range(&self.data, e.offset as usize, e.length as usize)))
    }
}

} // verus!
