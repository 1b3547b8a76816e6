//! Low-level BMP structures: headers, color tables, masks, byte layout,
//! structural parsing and serialization, and specification validation.
pub mod error;
pub mod le;
pub mod stream;
pub mod types;
pub mod masks;
pub mod headers;
pub mod bmp;
pub mod roundtrip;

pub use bmp::{BitmapCoreData, BitmapInfoData, BitmapV4Data, BitmapV5Data, Bmp, DibVariant};
pub use error::{
    BmpError, ColorMaskError, IccProfileError, IoErrorKind, IoStage, LimitedItem, PixelDataLayoutError, StructuralError,
    ValidationError,
};

pub use headers::{BitmapCoreHeader, BitmapHeader, BitmapInfoHeader, BitmapV4Header, BitmapV5Header, FileHeader};
pub use masks::{ColorMaskChannel, ColorMasks, RgbMasks, RgbaMasks};

pub use types::{
    BitsPerPixel, CieXyz, CieXyzTriple, ColorSpaceType, Compression, FixedPoint16Dot16, FixedPoint2Dot30,
    GammaTriple, RgbQuad, RgbTriple,
};
