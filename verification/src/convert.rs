use crate::blob::Blob;
use crate::compression::{
    brotli_of, compress_brotli, compress_gzip, decompress_brotli, decompress_gzip, gunzip_of,
    gzip_of, unbrotli_of, Compression,
};
use crate::error::TileError;
use crate::image_codec::{
    jpg_to_png, jpg_to_png_of, jpg_to_webp, jpg_to_webp_of, png_to_jpg, png_to_jpg_of, png_to_png,
    png_to_png_of, png_to_webp, png_to_webp_of, webp_to_jpg, webp_to_jpg_of, webp_to_png,
    webp_to_png_of,
};
use crate::tile_format::TileFormat;
use vstd::prelude::*;

verus! {

/// One stage of a conversion pipeline: a pure function from a blob to a
/// blob, with a fixed human-readable name.
#[derive(Clone, Copy, Debug, PartialEq, Eq, Structural)]
pub enum FnConv {
    DecompressGzip,
    DecompressBrotli,
    CompressGzip,
    CompressBrotli,
    PngToPng,
    PngToJpg,
    PngToWebp,
    JpgToPng,
    JpgToWebp,
    WebpToPng,
    WebpToJpg,
}

/// The name of a stage, as it appears in a pipeline description.
pub open spec fn spec_stage_name(f: FnConv) -> Seq<char> {
    match f {
        FnConv::DecompressGzip => "decompress_gzip"@,
        FnConv::DecompressBrotli => "decompress_brotli"@,
        FnConv::CompressGzip => "compress_gzip"@,
        FnConv::CompressBrotli => "compress_brotli"@,
        FnConv::PngToPng => "PNG->PNG"@,
        FnConv::PngToJpg => "PNG->JPG"@,
        FnConv::PngToWebp => "PNG->WEBP"@,
        FnConv::JpgToPng => "JPG->PNG"@,
        FnConv::JpgToWebp => "JPG->WEBP"@,
        FnConv::WebpToPng => "WEBP->PNG"@,
        FnConv::WebpToJpg => "WEBP->JPG"@,
    }
}

/// What one stage returns on given bytes; `None` when the stage fails.
pub open spec fn spec_apply_stage(f: FnConv, data: Seq<u8>) -> Option<Seq<u8>> {
    match f {
        FnConv::DecompressGzip => gunzip_of(data),
        FnConv::DecompressBrotli => unbrotli_of(data),
        FnConv::CompressGzip => Some(gzip_of(data)),
        FnConv::CompressBrotli => Some(brotli_of(data)),
        FnConv::PngToPng => png_to_png_of(data),
        FnConv::PngToJpg => png_to_jpg_of(data),
        FnConv::PngToWebp => png_to_webp_of(data),
        FnConv::JpgToPng => jpg_to_png_of(data),
        FnConv::JpgToWebp => jpg_to_webp_of(data),
        FnConv::WebpToPng => webp_to_png_of(data),
        FnConv::WebpToJpg => webp_to_jpg_of(data),
    }
}

/// What a whole pipeline returns on given bytes: the stages applied in
/// order, failing as soon as one stage fails.
pub open spec fn spec_apply_pipeline(fns: Seq<FnConv>, data: Seq<u8>) -> Option<Seq<u8>>
    decreases fns.len(),
{
    if fns.len() == 0 {
        Some(data)
    } else {
        match spec_apply_stage(fns[0], data) {
            Some(d) => spec_apply_pipeline(fns.skip(1), d),
            None => None,
        }
    }
}

/// The description of a pipeline: the stage names joined with `", "`.
pub open spec fn spec_description(fns: Seq<FnConv>) -> Seq<char>
    decreases fns.len(),
{
    if fns.len() == 0 {
        Seq::<char>::empty()
    } else if fns.len() == 1 {
        spec_stage_name(fns[0])
    } else {
        spec_description(fns.drop_last()) + ", "@ + spec_stage_name(fns.last())
    }
}

/// The stages that undo `src_comp`.
pub open spec fn spec_decompressor_stages(src_comp: Compression) -> Seq<FnConv> {
    match src_comp {
        Compression::Uncompressed => Seq::<FnConv>::empty(),
        Compression::Gzip => seq![FnConv::DecompressGzip],
        Compression::Brotli => seq![FnConv::DecompressBrotli],
    }
}

/// The stages that apply `dst_comp`.
pub open spec fn spec_compressor_stages(dst_comp: Compression) -> Seq<FnConv> {
    match dst_comp {
        Compression::Uncompressed => Seq::<FnConv>::empty(),
        Compression::Gzip => seq![FnConv::CompressGzip],
        Compression::Brotli => seq![FnConv::CompressBrotli],
    }
}

/// The transcode stage from `src_form` to `dst_form`: `None` when no path
/// exists, `Some(None)` when no stage is needed, `Some(Some(f))` otherwise.
///
/// Formats equal to each other need no stage unless recompression is
/// forced; forcing re-encodes PNG, and is void on every other format.
/// Distinct raster formats transcode through a decode and an encode;
/// vector and text formats never transcode.
pub open spec fn spec_format_stage(src_form: TileFormat, dst_form: TileFormat, force: bool) -> Option<
    Option<FnConv>,
> {
    if src_form == dst_form && !force {
        Some(None)
    } else {
        match (src_form, dst_form) {
            (TileFormat::PNG, TileFormat::JPG) => Some(Some(FnConv::PngToJpg)),
            (TileFormat::PNG, TileFormat::PNG) => Some(Some(FnConv::PngToPng)),
            (TileFormat::PNG, TileFormat::WEBP) => Some(Some(FnConv::PngToWebp)),
            (TileFormat::JPG, TileFormat::PNG) => Some(Some(FnConv::JpgToPng)),
            (TileFormat::JPG, TileFormat::WEBP) => Some(Some(FnConv::JpgToWebp)),
            (TileFormat::WEBP, TileFormat::JPG) => Some(Some(FnConv::WebpToJpg)),
            (TileFormat::WEBP, TileFormat::PNG) => Some(Some(FnConv::WebpToPng)),
            _ => if src_form == dst_form {
                Some(None)
            } else {
                None
            },
        }
    }
}

/// The full recompression pipeline: undo the source compression, transcode,
/// apply the destination compression. When both compressions agree and
/// recompression is not forced, only the transcode stage remains; `None`
/// when the formats admit no path.
pub open spec fn spec_recompressor(
    src_form: TileFormat,
    src_comp: Compression,
    dst_form: TileFormat,
    dst_comp: Compression,
    force: bool,
) -> Option<Seq<FnConv>> {
    match spec_format_stage(src_form, dst_form, force) {
        None => None,
        Some(stage) => {
            let stage_seq = match stage {
                None => Seq::<FnConv>::empty(),
                Some(f) => seq![f],
            };
            if src_comp == dst_comp && !force {
                Some(stage_seq)
            } else {
                Some(
                    spec_decompressor_stages(src_comp) + stage_seq + spec_compressor_stages(
                        dst_comp,
                    ),
                )
            }
        },
    }
}


/// A compressor pipeline never fails: it returns the compressed bytes.
pub proof fn lemma_compressor_pipeline(c: Compression, data: Seq<u8>)
    ensures
        spec_apply_pipeline(spec_compressor_stages(c), data) == Some(
            crate::compression::spec_compress(data, c),
        ),
{
    match c {
        Compression::Uncompressed => {
            assert(spec_compressor_stages(c) =~= Seq::<FnConv>::empty());
        },
        Compression::Gzip => {
            let s = spec_compressor_stages(c);
            assert(s.skip(1) =~= Seq::<FnConv>::empty());
            assert(spec_apply_pipeline(s.skip(1), gzip_of(data)) == Some(gzip_of(data)));
        },
        Compression::Brotli => {
            let s = spec_compressor_stages(c);
            assert(s.skip(1) =~= Seq::<FnConv>::empty());
            assert(spec_apply_pipeline(s.skip(1), brotli_of(data)) == Some(brotli_of(data)));
        },
    }
}

/// Runs one stage on a blob.
fn run_stage(f: &FnConv, data: Blob) -> (r: Option<Blob>)
    ensures
        r is Some <==> spec_apply_stage(*f, data@) is Some,
        r is Some ==> r->0@ == spec_apply_stage(*f, data@)->0,
{
    match f {
        FnConv::DecompressGzip => decompress_gzip(&data),
        FnConv::DecompressBrotli => decompress_brotli(&data),
        FnConv::CompressGzip => Some(compress_gzip(&data)),
        FnConv::CompressBrotli => Some(compress_brotli(&data)),
        FnConv::PngToPng => png_to_png(&data),
        FnConv::PngToJpg => png_to_jpg(&data),
        FnConv::PngToWebp => png_to_webp(&data),
        FnConv::JpgToPng => jpg_to_png(&data),
        FnConv::JpgToWebp => jpg_to_webp(&data),
        FnConv::WebpToPng => webp_to_png(&data),
        FnConv::WebpToJpg => webp_to_jpg(&data),
    }
}

/// The executable name of a stage.
fn stage_name(f: &FnConv) -> (r: &'static str)
    ensures
        r@ == spec_stage_name(*f),
{
    match f {
        FnConv::DecompressGzip => "decompress_gzip",
        FnConv::DecompressBrotli => "decompress_brotli",
        FnConv::CompressGzip => "compress_gzip",
        FnConv::CompressBrotli => "compress_brotli",
        FnConv::PngToPng => "PNG->PNG",
        FnConv::PngToJpg => "PNG->JPG",
        FnConv::PngToWebp => "PNG->WEBP",
        FnConv::JpgToPng => "JPG->PNG",
        FnConv::JpgToWebp => "JPG->WEBP",
        FnConv::WebpToPng => "WEBP->PNG",
        FnConv::WebpToJpg => "WEBP->JPG",
    }
}

/// An ordered pipeline of conversion stages applied to a blob.
#[derive(Debug)]
pub struct DataConverter {
    pipeline: Vec<FnConv>,
}

impl View for DataConverter {
    type V = Seq<FnConv>;

    closed spec fn view(&self) -> Seq<FnConv> {
        self.pipeline@
    }
}

impl DataConverter {
    /// The empty pipeline: it returns every blob unchanged.
    pub fn new_empty() -> (r: DataConverter)
        ensures
            r@ == Seq::<FnConv>::empty(),
    {
        DataConverter { pipeline: Vec::new() }
    }

    /// True iff the pipeline holds no stage.
    pub fn is_empty(&self) -> (r: bool)
        ensures
            r == (self@.len() == 0),
    {
        self.pipeline.len() == 0
    }

    /// Appends one stage.
    fn push(&mut self, f: FnConv)
        ensures
            final(self)@ == old(self)@ + seq![f],
    {
        self.pipeline.push(f);
        proof {
            assert(self@ =~= old(self)@ + seq![f]);
        }
    }

    /// The pipeline that applies the compression `dst_comp`: empty for
    /// uncompressed, one stage otherwise.
    pub fn new_compressor(dst_comp: &Compression) -> (r: DataConverter)
        ensures
            r@ == spec_compressor_stages(*dst_comp),
    {
        let mut converter = DataConverter::new_empty();
        match dst_comp {
            Compression::Uncompressed => {},
            Compression::Gzip => converter.push(FnConv::CompressGzip),
            Compression::Brotli => converter.push(FnConv::CompressBrotli),
        }
        proof {
            assert(converter@ =~= spec_compressor_stages(*dst_comp));
        }
        converter
    }

    /// The pipeline that undoes the compression `src_comp`.
    pub fn new_decompressor(src_comp: &Compression) -> (r: DataConverter)
        ensures
            r@ == spec_decompressor_stages(*src_comp),
    {
        let mut converter = DataConverter::new_empty();
        match src_comp {
            Compression::Uncompressed => {},
            Compression::Gzip => converter.push(FnConv::DecompressGzip),
            Compression::Brotli => converter.push(FnConv::DecompressBrotli),
        }
        proof {
            assert(converter@ =~= spec_decompressor_stages(*src_comp));
        }
        converter
    }

    /// The minimal pipeline that takes tiles from `(src_form, src_comp)` to
    /// `(dst_form, dst_comp)`, re-encoding even when nothing changes if
    /// `force_recompress` is set. Fails with `UnsupportedConversion` exactly
    /// when the two formats admit no transcode path.
    pub fn new_tile_recompressor(
        src_form: &TileFormat,
        src_comp: &Compression,
        dst_form: &TileFormat,
        dst_comp: &Compression,
        force_recompress: bool,
    ) -> (r: Result<DataConverter, TileError>)
        ensures
            r is Ok <==> spec_recompressor(
                *src_form,
                *src_comp,
                *dst_form,
                *dst_comp,
                force_recompress,
            ) is Some,
            r is Ok ==> r->Ok_0@ == spec_recompressor(
                *src_form,
                *src_comp,
                *dst_form,
                *dst_comp,
                force_recompress,
            )->0,
            r is Err ==> r->Err_0 == TileError::UnsupportedConversion,
    {
        let mut converter = DataConverter::new_empty();

        let same_form = *src_form == *dst_form;
        let format_stage: Option<FnConv> = if same_form && !force_recompress {
            None
        } else {
            match (src_form, dst_form) {
                (TileFormat::PNG, TileFormat::JPG) => Some(FnConv::PngToJpg),
                (TileFormat::PNG, TileFormat::PNG) => Some(FnConv::PngToPng),
                (TileFormat::PNG, TileFormat::WEBP) => Some(FnConv::PngToWebp),
                (TileFormat::JPG, TileFormat::PNG) => Some(FnConv::JpgToPng),
                (TileFormat::JPG, TileFormat::WEBP) => Some(FnConv::JpgToWebp),
                (TileFormat::WEBP, TileFormat::JPG) => Some(FnConv::WebpToJpg),
                (TileFormat::WEBP, TileFormat::PNG) => Some(FnConv::WebpToPng),
                _ => {
                    if same_form {
                        None
                    } else {
                        return Err(TileError::UnsupportedConversion);
                    }
                },
            }
        };

        if *src_comp == *dst_comp && !force_recompress {
            if let Some(f) = format_stage {
                converter.push(f);
            }
        } else {
            match src_comp {
                Compression::Uncompressed => {},
                Compression::Gzip => converter.push(FnConv::DecompressGzip),
                Compression::Brotli => converter.push(FnConv::DecompressBrotli),
            }
            if let Some(f) = format_stage {
                converter.push(f);
            }
            match dst_comp {
                Compression::Uncompressed => {},
                Compression::Gzip => converter.push(FnConv::CompressGzip),
                Compression::Brotli => converter.push(FnConv::CompressBrotli),
            }
        }
        proof {
            let expect = spec_recompressor(
                *src_form,
                *src_comp,
                *dst_form,
                *dst_comp,
                force_recompress,
            );
            assert(expect is Some);
            assert(converter@ =~= expect->0);
        }
        Ok(converter)
    }

    /// Runs the blob through every stage in order; fails with `CodecError`
    /// exactly when some stage fails on its input.
    #[verifier::loop_isolation(false)]
    pub fn run(&self, data: Blob) -> (r: Result<Blob, TileError>)
        ensures
            r is Ok <==> spec_apply_pipeline(self@, data@) is Some,
            r is Ok ==> r->Ok_0@ == spec_apply_pipeline(self@, data@)->0,
            r is Err ==> r->Err_0 == TileError::CodecError,
    {
        let ghost fns = self@;
        let ghost data0 = data@;
        proof {
            assert(fns.skip(0) =~= fns);
        }
        let mut current = data;
        let mut i: usize = 0;
        while i < self.pipeline.len()
            invariant
                i <= fns.len(),
                fns == self@,
                spec_apply_pipeline(fns, data0) == spec_apply_pipeline(
                    fns.skip(i as int),
                    current@,
                ),
            decreases fns.len() - i,
        {
            let ghost cur0 = current@;
            proof {
                assert(fns.skip(i as int)[0] == fns[i as int]);
                assert(fns.skip(i as int).skip(1) =~= fns.skip(i as int + 1));
            }
            match run_stage(&self.pipeline[i], current) {
                Some(b) => {
                    current = b;
                },
                None => {
                    proof {
                        assert(spec_apply_stage(fns[i as int], cur0) is None);
                        assert(spec_apply_pipeline(fns.skip(i as int), cur0) is None);
                        assert(spec_apply_pipeline(fns, data0) is None);
                    }
                    return Err(TileError::CodecError);
                },
            }
            i = i + 1;
        }
        proof {
            assert(fns.skip(fns.len() as int) =~= Seq::<FnConv>::empty());
        }
        Ok(current)
    }

    /// The stage names joined with `", "`.
    pub fn description(&self) -> (r: String)
        ensures
            r@ == spec_description(self@),
    {
        let mut s = String::new();
        let mut i: usize = 0;
        while i < self.pipeline.len()
            invariant
                i <= self@.len(),
                s@ == spec_description(self@.take(i as int)),
            decreases self@.len() - i,
        {
            if i > 0 {
                s.append(", ");
            }
            s.append(stage_name(&self.pipeline[i]));
            i = i + 1;
            proof {
                assert(self@.take(i as int).drop_last() =~= self@.take(i as int - 1));
                assert(self@.take(i as int).last() == self@[i as int - 1]);
                assert(s@ =~= spec_description(self@.take(i as int)));
            }
        }
        proof {
            assert(self@.take(self@.len() as int) =~= self@);
        }
        s
    }
}

impl PartialEq for DataConverter {
    /// Pipelines are equal iff their stage sequences are equal; stage names
    /// are in bijection with stages, so this is equality of descriptions.
    fn eq(&self, other: &DataConverter) -> (r: bool) {
        if self.pipeline.len() != other.pipeline.len() {
            return false;
        }
        let mut i: usize = 0;
        while i < self.pipeline.len()
            invariant
                i <= self@.len(),
                self@.len() == other@.len(),
                forall|j: int| 0 <= j < i ==> self@[j] == other@[j],
            decreases self@.len() - i,
        {
            let a = self.pipeline[i];
            let b = other.pipeline[i];
            if a != b {
                return false;
            }
            i = i + 1;
        }
        proof {
            assert(self@ =~= other@);
        }
        true
    }
}

impl vstd::std_specs::cmp::PartialEqSpecImpl for DataConverter {
    open spec fn obeys_eq_spec() -> bool {
        true
    }

    open spec fn eq_spec(&self, other: &DataConverter) -> bool {
        self@ == other@
    }
}

} // verus!
