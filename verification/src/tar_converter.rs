use crate::blob::Blob;
use crate::byteops::{dec_digits, push_decimal};
use crate::compression::{decompress, spec_decompress, Compression};
use crate::config::TileConverterConfig;
use crate::coords::TileCoord3;
use crate::error::TileError;
use crate::pyramid::ZOOM_LEVELS;
use crate::bbox::TileBBox;
use crate::convert::FnConv;
use crate::tar_archive::{
    tar_append, tar_builder_entries, tar_builder_new, tar_bytes_of, tar_finish,
};
use crate::tile_format::TileFormat;
use crate::traits::{get_bbox_tile_vec, TileReaderTrait};
use vstd::prelude::*;

verus! {

/// The file-name suffix of a tile format; binary tiles have none.
pub open spec fn spec_format_ext(f: TileFormat) -> Seq<u8> {
    match f {
        TileFormat::BIN => Seq::<u8>::empty(),
        TileFormat::PNG => seq![0x2eu8, 0x70, 0x6e, 0x67],
        TileFormat::JPG => seq![0x2eu8, 0x6a, 0x70, 0x67],
        TileFormat::WEBP => seq![0x2eu8, 0x77, 0x65, 0x62, 0x70],
        TileFormat::AVIF => seq![0x2eu8, 0x61, 0x76, 0x69, 0x66],
        TileFormat::SVG => seq![0x2eu8, 0x73, 0x76, 0x67],
        TileFormat::PBF => seq![0x2eu8, 0x70, 0x62, 0x66],
        TileFormat::GEOJSON => seq![0x2eu8, 0x67, 0x65, 0x6f, 0x6a, 0x73, 0x6f, 0x6e],
        TileFormat::TOPOJSON => seq![0x2eu8, 0x74, 0x6f, 0x70, 0x6f, 0x6a, 0x73, 0x6f, 0x6e],
        TileFormat::JSON => seq![0x2eu8, 0x6a, 0x73, 0x6f, 0x6e],
    }
}

/// The file-name suffix of a compression; uncompressed data has none.
pub open spec fn spec_comp_ext(c: Compression) -> Seq<u8> {
    match c {
        Compression::Uncompressed => Seq::<u8>::empty(),
        Compression::Gzip => seq![0x2eu8, 0x67, 0x7a],
        Compression::Brotli => seq![0x2eu8, 0x62, 0x72],
    }
}

/// Appends the format suffix.
fn push_format_ext(v: &mut Vec<u8>, f: &TileFormat)
    ensures
        final(v)@ == old(v)@ + spec_format_ext(*f),
{
    match f {
        TileFormat::BIN => {},
        TileFormat::PNG => {
            v.push(0x2e);
            v.push(0x70);
            v.push(0x6e);
            v.push(0x67);
        },
        TileFormat::JPG => {
            v.push(0x2e);
            v.push(0x6a);
            v.push(0x70);
            v.push(0x67);
        },
        TileFormat::WEBP => {
            v.push(0x2e);
            v.push(0x77);
            v.push(0x65);
            v.push(0x62);
            v.push(0x70);
        },
        TileFormat::AVIF => {
            v.push(0x2e);
            v.push(0x61);
            v.push(0x76);
            v.push(0x69);
            v.push(0x66);
        },
        TileFormat::SVG => {
            v.push(0x2e);
            v.push(0x73);
            v.push(0x76);
            v.push(0x67);
        },
        TileFormat::PBF => {
            v.push(0x2e);
            v.push(0x70);
            v.push(0x62);
            v.push(0x66);
        },
        TileFormat::GEOJSON => {
            v.push(0x2e);
            v.push(0x67);
            v.push(0x65);
            v.push(0x6f);
            v.push(0x6a);
            v.push(0x73);
            v.push(0x6f);
            v.push(0x6e);
        },
        TileFormat::TOPOJSON => {
            v.push(0x2e);
            v.push(0x74);
            v.push(0x6f);
            v.push(0x70);
            v.push(0x6f);
            v.push(0x6a);
            v.push(0x73);
            v.push(0x6f);
            v.push(0x6e);
        },
        TileFormat::JSON => {
            v.push(0x2e);
            v.push(0x6a);
            v.push(0x73);
            v.push(0x6f);
            v.push(0x6e);
        },
    }
    proof {
        assert(v@ =~= old(v)@ + spec_format_ext(*f));
    }
}

/// Appends the compression suffix.
fn push_comp_ext(v: &mut Vec<u8>, c: &Compression)
    ensures
        final(v)@ == old(v)@ + spec_comp_ext(*c),
{
    match c {
        Compression::Uncompressed => {},
        Compression::Gzip => {
            v.push(0x2e);
            v.push(0x67);
            v.push(0x7a);
        },
        Compression::Brotli => {
            v.push(0x2e);
            v.push(0x62);
            v.push(0x72);
        },
    }
    proof {
        assert(v@ =~= old(v)@ + spec_comp_ext(*c));
    }
}

/// The archive path of a tile: `./z/y/x` with the format and compression
/// suffixes.
pub open spec fn spec_tile_path(z: u8, y: u32, x: u32, f: TileFormat, c: Compression) -> Seq<u8> {
    seq![0x2eu8, 0x2f] + dec_digits(z as int) + seq![0x2fu8] + dec_digits(y as int) + seq![0x2fu8]
        + dec_digits(x as int) + spec_format_ext(f) + spec_comp_ext(c)
}

/// The archive path of the metadata: `tiles.json` with the compression
/// suffix.
pub open spec fn spec_meta_path(c: Compression) -> Seq<u8> {
    seq![0x74u8, 0x69, 0x6c, 0x65, 0x73, 0x2e, 0x6a, 0x73, 0x6f, 0x6e] + spec_comp_ext(c)
}

/// Builds the archive path of a tile.
pub fn make_tile_path(z: u8, y: u32, x: u32, f: &TileFormat, c: &Compression) -> (r: Vec<u8>)
    ensures
        r@ == spec_tile_path(z, y, x, *f, *c),
{
    let mut v: Vec<u8> = Vec::new();
    v.push(0x2e);
    v.push(0x2f);
    push_decimal(&mut v, z as u32);
    v.push(0x2f);
    push_decimal(&mut v, y);
    v.push(0x2f);
    push_decimal(&mut v, x);
    push_format_ext(&mut v, f);
    push_comp_ext(&mut v, c);
    proof {
        assert(v@ =~= spec_tile_path(z, y, x, *f, *c));
    }
    v
}

/// Builds the archive path of the metadata.
pub fn make_meta_path(c: &Compression) -> (r: Vec<u8>)
    ensures
        r@ == spec_meta_path(*c),
{
    let mut v: Vec<u8> = Vec::new();
    v.push(0x74);
    v.push(0x69);
    v.push(0x6c);
    v.push(0x65);
    v.push(0x73);
    v.push(0x2e);
    v.push(0x6a);
    v.push(0x73);
    v.push(0x6f);
    v.push(0x6e);
    push_comp_ext(&mut v, c);
    proof {
        assert(v@ =~= spec_meta_path(*c));
    }
    v
}

/// What the conversion stores for the tile of `coord` in an archive: the
/// source tile run through the pipeline; `None` when the source holds no
/// tile there or the pipeline fails on it (the tile is dropped).
pub open spec fn spec_tar_tile<R: TileReaderTrait>(
    reader: R,
    rec: Seq<FnConv>,
    coord: TileCoord3,
) -> Option<Seq<u8>> {
    match reader.spec_tile(coord) {
        None => None,
        Some(t) => crate::convert::spec_apply_pipeline(rec, t),
    }
}

/// The entry is the converted tile of some covered coordinate, stored
/// under that coordinate's path.
pub open spec fn spec_entry_is_tile<R: TileReaderTrait>(
    e: (Seq<u8>, u32, Seq<u8>),
    reader: R,
    rec: Seq<FnConv>,
    pyr: Seq<TileBBox>,
    dstf: TileFormat,
    dstc: Compression,
) -> bool {
    exists|c: TileCoord3|
        (c.z as int) < pyr.len() && pyr[c.z as int].spec_contains(c.x, c.y)
            && #[trigger] spec_tar_tile(reader, rec, c) is Some && e.0 == spec_tile_path(
            c.z,
            c.y,
            c.x,
            dstf,
            dstc,
        ) && e.2 == spec_tar_tile(reader, rec, c)->0
}

/// Some entry beyond the metadata holds the converted tile of `c` under
/// its path.
pub open spec fn spec_coord_has_entry<R: TileReaderTrait>(
    entries: Seq<(Seq<u8>, u32, Seq<u8>)>,
    c: TileCoord3,
    reader: R,
    rec: Seq<FnConv>,
    dstf: TileFormat,
    dstc: Compression,
    meta_count: int,
) -> bool {
    exists|k: int|
        meta_count <= k < entries.len() && (#[trigger] entries[k]).0 == spec_tile_path(
            c.z,
            c.y,
            c.x,
            dstf,
            dstc,
        ) && entries[k].2 == spec_tar_tile(reader, rec, c)->0
}

/// The number of metadata entries an archive opens with: one when the
/// source carries metadata, none otherwise.
pub open spec fn spec_meta_count<R: TileReaderTrait>(reader: R) -> int {
    if reader.spec_meta().len() > 0 {
        1
    } else {
        0
    }
}

/// Every entry so far is sound: mode 0o644 throughout, the recompressed
/// metadata first exactly when the source carries metadata, and every
/// further entry a converted tile of a covered coordinate.
pub open spec fn spec_entries_partial_ok<R: TileReaderTrait>(
    entries: Seq<(Seq<u8>, u32, Seq<u8>)>,
    reader: R,
    rec: Seq<FnConv>,
    pyr: Seq<TileBBox>,
    dstf: TileFormat,
    dstc: Compression,
) -> bool {
    &&& entries.len() >= spec_meta_count(reader)
    &&& (reader.spec_meta().len() > 0 ==> entries[0].0 == spec_meta_path(dstc) && entries[0].2
        == crate::compression::spec_compress(
        spec_decompress(reader.spec_meta(), reader.spec_compression())->0,
        dstc,
    ))
    &&& forall|k: int| 0 <= k < entries.len() ==> (#[trigger] entries[k]).1 == 0o644
    &&& forall|k: int|
        spec_meta_count(reader) <= k < entries.len() ==> spec_entry_is_tile(
            #[trigger] entries[k],
            reader,
            rec,
            pyr,
            dstf,
            dstc,
        )
}

/// The entry list of a finished archive: sound throughout, and complete —
/// every covered coordinate whose tile converts has its entry.
pub open spec fn spec_tar_entries_ok<R: TileReaderTrait>(
    entries: Seq<(Seq<u8>, u32, Seq<u8>)>,
    reader: R,
    rec: Seq<FnConv>,
    pyr: Seq<TileBBox>,
    dstf: TileFormat,
    dstc: Compression,
) -> bool {
    &&& spec_entries_partial_ok(entries, reader, rec, pyr, dstf, dstc)
    &&& forall|c: TileCoord3|
        (c.z as int) < pyr.len() && pyr[c.z as int].spec_contains(c.x, c.y)
            && #[trigger] spec_tar_tile(reader, rec, c) is Some ==> spec_coord_has_entry(
            entries,
            c,
            reader,
            rec,
            dstf,
            dstc,
            spec_meta_count(reader),
        )
}

/// Appending a sound tile entry keeps the list sound and keeps every
/// coordinate's entry.
proof fn lemma_entries_push<R: TileReaderTrait>(
    entries: Seq<(Seq<u8>, u32, Seq<u8>)>,
    e: (Seq<u8>, u32, Seq<u8>),
    reader: R,
    rec: Seq<FnConv>,
    pyr: Seq<TileBBox>,
    dstf: TileFormat,
    dstc: Compression,
)
    requires
        spec_entries_partial_ok(entries, reader, rec, pyr, dstf, dstc),
        e.1 == 0o644,
        spec_entry_is_tile(e, reader, rec, pyr, dstf, dstc),
    ensures
        spec_entries_partial_ok(entries.push(e), reader, rec, pyr, dstf, dstc),
        forall|c: TileCoord3|
            spec_coord_has_entry(
                entries,
                c,
                reader,
                rec,
                dstf,
                dstc,
                spec_meta_count(reader),
            ) ==> #[trigger] spec_coord_has_entry(
                entries.push(e),
                c,
                reader,
                rec,
                dstf,
                dstc,
                spec_meta_count(reader),
            ),
{
    let mc = spec_meta_count(reader);
    let es = entries.push(e);
    assert forall|k: int| mc <= k < es.len() implies spec_entry_is_tile(
        #[trigger] es[k],
        reader,
        rec,
        pyr,
        dstf,
        dstc,
    ) by {
        if k < entries.len() {
            assert(es[k] == entries[k]);
        } else {
            assert(es[k] == e);
        }
    }
    assert forall|c: TileCoord3|
        spec_coord_has_entry(entries, c, reader, rec, dstf, dstc, mc) implies #[trigger]
        spec_coord_has_entry(es, c, reader, rec, dstf, dstc, mc) by {
        let k = choose|k: int|
            mc <= k < entries.len() && (#[trigger] entries[k]).0 == spec_tile_path(
                c.z,
                c.y,
                c.x,
                dstf,
                dstc,
            ) && entries[k].2 == spec_tar_tile(reader, rec, c)->0;
        assert(es[k] == entries[k]);
        assert(mc <= k < es.len() && es[k].0 == spec_tile_path(c.z, c.y, c.x, dstf, dstc)
            && es[k].2 == spec_tar_tile(reader, rec, c)->0);
    }
}

/// Writes a source out as a tar archive of tile files: one regular file
/// per tile under `./z/y/x` with the destination suffixes, plus the
/// recompressed metadata as `tiles.json`.
#[derive(Debug)]
pub struct TileConverter {
    pub config: TileConverterConfig,
}

impl TileConverter {
    /// A converter that will write one archive for `config`.
    pub fn new(config: TileConverterConfig) -> (r: TileConverter)
        ensures
            r.config == config,
    {
        TileConverter { config }
    }

    /// Runs the conversion and returns the archive bytes: the serialized
    /// entry list of `spec_tar_entries_ok`.
    ///
    /// Fails with `UnsupportedConversion` exactly when the formats admit
    /// no transcode path; with `CodecError` exactly when the source
    /// carries metadata that does not decompress as declared; and with
    /// `Io` only when the archive writer refuses an entry. Tiles that
    /// fail conversion are dropped, as are tiles the source does not
    /// hold.
    #[verifier::loop_isolation(false)]
    #[verifier::rlimit(100)]
    #[verifier::spinoff_prover]
    pub fn convert_from<R: TileReaderTrait>(&mut self, reader: &mut R) -> (r: Result<
        Blob,
        TileError,
    >)
        requires
            old(self).config.spec_wf(),
            old(reader).spec_wf(),
        ensures
            final(reader).spec_wf(),
            final(reader).spec_format() == old(reader).spec_format(),
            final(reader).spec_compression() == old(reader).spec_compression(),
            final(reader).spec_pyramid() == old(reader).spec_pyramid(),
            final(reader).spec_meta() == old(reader).spec_meta(),
            forall|c: TileCoord3| #[trigger] final(reader).spec_tile(c) == old(reader).spec_tile(c),
            ({
                let srcf = old(reader).spec_format();
                let srcc = old(reader).spec_compression();
                let dstf = crate::config::spec_dst_format(old(self).config.tile_format, srcf);
                let dstc = crate::config::spec_dst_compression(
                    old(self).config.tile_compression,
                    srcc,
                );
                let rec = crate::convert::spec_recompressor(
                    srcf,
                    srcc,
                    dstf,
                    dstc,
                    old(self).config.force_recompress,
                );
                &&& ((r is Err && r->Err_0 == TileError::UnsupportedConversion) <==> rec is None)
                &&& (rec is Some ==> ((r is Err && r->Err_0 == TileError::CodecError) <==> (old(
                    reader,
                ).spec_meta().len() > 0 && spec_decompress(old(reader).spec_meta(), srcc) is None)))
                &&& (r is Err ==> (r->Err_0 == TileError::UnsupportedConversion || r->Err_0
                    == TileError::CodecError || r->Err_0 == TileError::Io))
                &&& (r is Ok ==> ({
                    let pyr = final(self).config.bbox_pyramide@;
                    &&& final(self).config.finalized
                    &&& final(self).config.tile_format == Some(dstf)
                    &&& final(self).config.tile_compression == Some(dstc)
                    &&& final(self).config.tile_recompressor matches Some(c) && c@ == rec->0
                    &&& final(self).config.spec_wf()
                    &&& pyr.len() == ZOOM_LEVELS
                    &&& forall|z: int|
                        0 <= z < ZOOM_LEVELS ==> ((#[trigger] pyr[z]).spec_wf() && forall|
                            x: u32,
                            y: u32,
                        |
                            #[trigger] pyr[z].spec_contains(x, y) == (old(
                                self,
                            ).config.bbox_pyramide@[z].spec_contains(x, y) && old(
                                reader,
                            ).spec_pyramid()[z].spec_contains(x, y)))
                    &&& exists|entries: Seq<(Seq<u8>, u32, Seq<u8>)>|
                        r->Ok_0@ == #[trigger] tar_bytes_of(entries) && spec_tar_entries_ok(
                            entries,
                            *old(reader),
                            rec->0,
                            pyr,
                            dstf,
                            dstc,
                        )
                }))
            }),
    {
        match self.config.finalize_with_parameters(reader.get_parameters()) {
            Ok(()) => {},
            Err(e) => {
                return Err(e);
            },
        }
        let dst_form = *self.config.get_tile_format();
        let dst_comp = *self.config.get_tile_compression();
        let src_comp = *reader.get_parameters().get_tile_precompression();
        let ghost rdr = *old(reader);
        let ghost rec = self.config.tile_recompressor->0@;
        let ghost pyr = self.config.bbox_pyramide@;
        let ghost mc = spec_meta_count(rdr);

        let mut builder = tar_builder_new();

        let meta = reader.get_meta();
        if meta.len() > 0 {
            let raw = match decompress(meta, &src_comp) {
                Ok(m) => m,
                Err(e) => {
                    return Err(e);
                },
            };
            let ghost raw_view = raw@;
            let packed = match self.config.get_compressor().run(raw) {
                Ok(m) => m,
                Err(_) => {
                    proof {
                        crate::convert::lemma_compressor_pipeline(dst_comp, raw_view);
                        assert(false);
                    }
                    return Err(TileError::CodecError);
                },
            };
            proof {
                crate::convert::lemma_compressor_pipeline(dst_comp, raw_view);
            }
            let meta_path = make_meta_path(&dst_comp);
            if !tar_append(&mut builder, &meta_path, 0o644, packed.as_vec()) {
                return Err(TileError::Io);
            }
            proof {
                assert(tar_builder_entries(builder)[0] == (meta_path@, 0o644u32, packed@));
            }
        }
        proof {
            assert(spec_entries_partial_ok(
                tar_builder_entries(builder),
                rdr,
                rec,
                pyr,
                dst_form,
                dst_comp,
            ));
            assert(tar_builder_entries(builder).len() == mc);
        }
        let mut zi: usize = 0;
        while zi < ZOOM_LEVELS
            invariant
                zi <= ZOOM_LEVELS,
                reader.spec_wf(),
                reader.spec_format() == rdr.spec_format(),
                reader.spec_compression() == rdr.spec_compression(),
                reader.spec_pyramid() == rdr.spec_pyramid(),
                reader.spec_meta() == rdr.spec_meta(),
                forall|c: TileCoord3| #[trigger] reader.spec_tile(c) == rdr.spec_tile(c),
                self.config.finalized,
                self.config.spec_wf(),
                spec_entries_partial_ok(
                    tar_builder_entries(builder),
                    rdr,
                    rec,
                    pyr,
                    dst_form,
                    dst_comp,
                ),
                forall|c: TileCoord3|
                    (c.z as int) < zi && pyr[c.z as int].spec_contains(c.x, c.y)
                        && #[trigger] spec_tar_tile(rdr, rec, c) is Some ==> spec_coord_has_entry(
                        tar_builder_entries(builder),
                        c,
                        rdr,
                        rec,
                        dst_form,
                        dst_comp,
                        mc,
                    ),
            decreases ZOOM_LEVELS - zi,
        {
            let z = zi as u8;
            let bbox = *self.config.get_bbox_pyramide().level(z);
            proof {
                assert(crate::pyramid::level_bbox_wf(bbox, z as int));
                vstd::arithmetic::power2::lemma2_to64();
                if (z as nat) < 30 {
                    vstd::arithmetic::power2::lemma_pow2_strictly_increases(z as nat, 30);
                }
            }
            if !bbox.is_empty() {
                let slices = bbox.row_slices(1024);
                let mut si: usize = 0;
                while si < slices.len()
                    invariant
                        si <= slices@.len(),
                        z == zi as u8,
                        zi < ZOOM_LEVELS,
                        bbox == pyr[zi as int],
                        !bbox.spec_is_empty(),
                        reader.spec_wf(),
                        reader.spec_format() == rdr.spec_format(),
                        reader.spec_compression() == rdr.spec_compression(),
                        reader.spec_pyramid() == rdr.spec_pyramid(),
                        reader.spec_meta() == rdr.spec_meta(),
                        forall|c: TileCoord3| #[trigger] reader.spec_tile(c) == rdr.spec_tile(c),
                        self.config.finalized,
                        self.config.spec_wf(),
                        forall|i: int|
                            0 <= i < slices@.len() ==> {
                                &&& (#[trigger] slices@[i]).spec_wf()
                                &&& !slices@[i].spec_is_empty()
                                &&& crate::pyramid::level_bbox_wf(slices@[i], z as int)
                            },
                        forall|x: u32, y: u32|
                            #[trigger] bbox.spec_contains(x, y) ==> exists|i: int|
                                0 <= i < slices@.len() && (#[trigger] slices@[i]).spec_contains(
                                    x,
                                    y,
                                ),
                        spec_entries_partial_ok(
                            tar_builder_entries(builder),
                            rdr,
                            rec,
                            pyr,
                            dst_form,
                            dst_comp,
                        ),
                        forall|c: TileCoord3|
                            ((c.z as int) < zi || ((c.z as int) == zi && exists|i: int|
                                0 <= i < si && (#[trigger] slices@[i]).spec_contains(c.x, c.y)))
                                && pyr[c.z as int].spec_contains(c.x, c.y)
                                && #[trigger] spec_tar_tile(rdr, rec, c) is Some
                                ==> spec_coord_has_entry(
                                tar_builder_entries(builder),
                                c,
                                rdr,
                                rec,
                                dst_form,
                                dst_comp,
                                mc,
                            ),
                    decreases slices@.len() - si,
                {
                    let slice = slices[si];
                    let tiles = get_bbox_tile_vec(reader, z, &slice);
                    let ghost rdr_tiles = tiles@;
                    let mut ti: usize = 0;
                    while ti < tiles.len()
                        invariant
                            ti <= tiles@.len(),
                            tiles@ == rdr_tiles,
                            z == zi as u8,
                            zi < ZOOM_LEVELS,
                            bbox == pyr[zi as int],
                            self.config.finalized,
                            self.config.spec_wf(),
                            forall|j: int|
                                0 <= j < tiles@.len() ==> {
                                    &&& (#[trigger] tiles@[j]).0.z == z
                                    &&& slice.spec_contains(tiles@[j].0.x, tiles@[j].0.y)
                                    &&& rdr.spec_tile(tiles@[j].0) == Some(tiles@[j].1@)
                                },
                            slice.spec_wf(),
                            !slice.spec_is_empty(),
                            forall|x: u32, y: u32|
                                #[trigger] slice.spec_contains(x, y) ==> bbox.spec_contains(x, y),
                            spec_entries_partial_ok(
                                tar_builder_entries(builder),
                                rdr,
                                rec,
                                pyr,
                                dst_form,
                                dst_comp,
                            ),
                            forall|c: TileCoord3|
                                ((c.z as int) < zi || ((c.z as int) == zi && exists|i: int|
                                    0 <= i < si && (#[trigger] slices@[i]).spec_contains(
                                        c.x,
                                        c.y,
                                    ))) && pyr[c.z as int].spec_contains(c.x, c.y)
                                    && #[trigger] spec_tar_tile(rdr, rec, c) is Some
                                    ==> spec_coord_has_entry(
                                    tar_builder_entries(builder),
                                    c,
                                    rdr,
                                    rec,
                                    dst_form,
                                    dst_comp,
                                    mc,
                                ),
                            forall|j: int|
                                0 <= j < ti && crate::convert::spec_apply_pipeline(
                                    rec,
                                    (#[trigger] tiles@[j]).1@,
                                ) is Some ==> spec_coord_has_entry(
                                    tar_builder_entries(builder),
                                    tiles@[j].0,
                                    rdr,
                                    rec,
                                    dst_form,
                                    dst_comp,
                                    mc,
                                ),
                        decreases tiles@.len() - ti,
                    {
                        let coord = tiles[ti].0;
                        let blob = tiles[ti].1.clone();
                        let ghost entries0 = tar_builder_entries(builder);
                        match self.config.get_tile_recompressor().run(blob) {
                            Ok(out) => {
                                let path = make_tile_path(
                                    coord.z,
                                    coord.y,
                                    coord.x,
                                    &dst_form,
                                    &dst_comp,
                                );
                                if !tar_append(&mut builder, &path, 0o644, out.as_vec()) {
                                    return Err(TileError::Io);
                                }
                                proof {
                                    let es = tar_builder_entries(builder);
                                    let e = (path@, 0o644u32, out@);
                                    let c0 = tiles@[ti as int].0;
                                    assert(es == entries0.push(e));
                                    assert(spec_tar_tile(rdr, rec, c0) == Some(out@));
                                    assert(pyr[c0.z as int].spec_contains(c0.x, c0.y));
                                    assert(spec_entry_is_tile(
                                        e,
                                        rdr,
                                        rec,
                                        pyr,
                                        dst_form,
                                        dst_comp,
                                    ));
                                    lemma_entries_push(
                                        entries0,
                                        e,
                                        rdr,
                                        rec,
                                        pyr,
                                        dst_form,
                                        dst_comp,
                                    );
                                    assert(es[es.len() - 1] == e);
                                    assert(spec_coord_has_entry(
                                        es,
                                        c0,
                                        rdr,
                                        rec,
                                        dst_form,
                                        dst_comp,
                                        mc,
                                    ));
                                }
                            },
                            Err(_) => {},
                        }
                        ti = ti + 1;
                    }
                    proof {
                        let es = tar_builder_entries(builder);
                        assert forall|c: TileCoord3|
                            ((c.z as int) < zi || ((c.z as int) == zi && exists|i: int|
                                0 <= i < si + 1 && (#[trigger] slices@[i]).spec_contains(
                                    c.x,
                                    c.y,
                                ))) && pyr[c.z as int].spec_contains(c.x, c.y)
                                && #[trigger] spec_tar_tile(rdr, rec, c) is Some implies
                            spec_coord_has_entry(es, c, rdr, rec, dst_form, dst_comp, mc) by {
                            let earlier = (c.z as int) < zi || ((c.z as int) == zi && exists|
                                i: int,
                            | 0 <= i < si && (#[trigger] slices@[i]).spec_contains(c.x, c.y));
                            if !earlier {
                                assert(slices@[si as int].spec_contains(c.x, c.y));
                                assert(rdr.spec_tile(c) is Some);
                                let j = choose|j: int|
                                    0 <= j < rdr_tiles.len() && (#[trigger] rdr_tiles[j]).0 == c;
                                assert(rdr.spec_tile(c) == Some(rdr_tiles[j].1@));
                                assert(crate::convert::spec_apply_pipeline(
                                    rec,
                                    rdr_tiles[j].1@,
                                ) is Some);
                            }
                        }
                    }
                    si = si + 1;
                }
                proof {
                    assert forall|c: TileCoord3|
                        (c.z as int) < zi + 1 && pyr[c.z as int].spec_contains(c.x, c.y)
                            && #[trigger] spec_tar_tile(rdr, rec, c) is Some implies
                        spec_coord_has_entry(
                            tar_builder_entries(builder),
                            c,
                            rdr,
                            rec,
                            dst_form,
                            dst_comp,
                            mc,
                        ) by {
                        if (c.z as int) == zi {
                            assert(bbox.spec_contains(c.x, c.y));
                        }
                    }
                }
            } else {
                proof {
                    assert forall|c: TileCoord3|
                        (c.z as int) < zi + 1 && pyr[c.z as int].spec_contains(c.x, c.y)
                            && #[trigger] spec_tar_tile(rdr, rec, c) is Some implies
                        spec_coord_has_entry(
                            tar_builder_entries(builder),
                            c,
                            rdr,
                            rec,
                            dst_form,
                            dst_comp,
                            mc,
                        ) by {
                        if (c.z as int) == zi {
                            assert(pyr[zi as int].spec_is_empty());
                        }
                    }
                }
            }
            zi = zi + 1;
        }
        let ghost entries_final = tar_builder_entries(builder);
        let out = tar_finish(builder);
        proof {
            assert(spec_tar_entries_ok(entries_final, rdr, rec, pyr, dst_form, dst_comp));
        }
        Ok(out)
    }
}

} // verus!
