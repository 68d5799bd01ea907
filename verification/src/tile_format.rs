use vstd::prelude::*;

verus! {

/// The encoding of a tile's payload. Determines its MIME type and its
/// file-name suffix in directory-style containers.
#[derive(Clone, Copy, Debug, PartialEq, Eq, Structural)]
pub enum TileFormat {
    BIN,
    PNG,
    JPG,
    WEBP,
    AVIF,
    SVG,
    PBF,
    GEOJSON,
    TOPOJSON,
    JSON,
}

impl TileFormat {
    /// The one-byte tag of this format in the container header.
    pub open spec fn spec_tag(self) -> u8 {
        match self {
            TileFormat::BIN => 0,
            TileFormat::PNG => 1,
            TileFormat::JPG => 2,
            TileFormat::WEBP => 3,
            TileFormat::AVIF => 4,
            TileFormat::SVG => 5,
            TileFormat::PBF => 6,
            TileFormat::GEOJSON => 7,
            TileFormat::TOPOJSON => 8,
            TileFormat::JSON => 9,
        }
    }

    /// True iff this format holds vector or text data rather than a
    /// raster image; such formats support no transcoding.
    pub open spec fn spec_is_vector(self) -> bool {
        match self {
            TileFormat::BIN
            | TileFormat::SVG
            | TileFormat::PBF
            | TileFormat::GEOJSON
            | TileFormat::TOPOJSON
            | TileFormat::JSON => true,
            _ => false,
        }
    }

    /// Writes the header tag.
    pub fn tag(&self) -> (r: u8)
        ensures
            r == self.spec_tag(),
    {
        match self {
            TileFormat::BIN => 0,
            TileFormat::PNG => 1,
            TileFormat::JPG => 2,
            TileFormat::WEBP => 3,
            TileFormat::AVIF => 4,
            TileFormat::SVG => 5,
            TileFormat::PBF => 6,
            TileFormat::GEOJSON => 7,
            TileFormat::TOPOJSON => 8,
            TileFormat::JSON => 9,
        }
    }

    /// Reads a header tag back; tags above 9 name no format.
    pub fn from_tag(t: u8) -> (r: Option<TileFormat>)
        ensures
            match r {
                Some(f) => f.spec_tag() == t,
                None => t > 9,
            },
    {
        match t {
            0 => Some(TileFormat::BIN),
            1 => Some(TileFormat::PNG),
            2 => Some(TileFormat::JPG),
            3 => Some(TileFormat::WEBP),
            4 => Some(TileFormat::AVIF),
            5 => Some(TileFormat::SVG),
            6 => Some(TileFormat::PBF),
            7 => Some(TileFormat::GEOJSON),
            8 => Some(TileFormat::TOPOJSON),
            9 => Some(TileFormat::JSON),
            _ => None,
        }
    }

    /// The MIME type served for tiles of this format.
    pub fn mime(&self) -> (r: &'static str)
        ensures
            r@ == self.spec_mime(),
    {
        match self {
            TileFormat::BIN => "application/octet-stream",
            TileFormat::PNG => "image/png",
            TileFormat::JPG => "image/jpeg",
            TileFormat::WEBP => "image/webp",
            TileFormat::AVIF => "image/avif",
            TileFormat::SVG => "image/svg+xml",
            TileFormat::PBF => "application/x-protobuf",
            TileFormat::GEOJSON => "application/json",
            TileFormat::TOPOJSON => "application/json",
            TileFormat::JSON => "application/json",
        }
    }

    /// The MIME type as a character sequence.
    pub open spec fn spec_mime(self) -> Seq<char> {
        match self {
            TileFormat::BIN => "application/octet-stream"@,
            TileFormat::PNG => "image/png"@,
            TileFormat::JPG => "image/jpeg"@,
            TileFormat::WEBP => "image/webp"@,
            TileFormat::AVIF => "image/avif"@,
            TileFormat::SVG => "image/svg+xml"@,
            TileFormat::PBF => "application/x-protobuf"@,
            TileFormat::GEOJSON => "application/json"@,
            TileFormat::TOPOJSON => "application/json"@,
            TileFormat::JSON => "application/json"@,
        }
    }
}

} // verus!
