//! Image transforms: the operations of a transform pipeline, the
//! pixel-moving and recolouring ones verified, and LSB steganography.
pub mod color;
pub mod convolution;
pub mod executor;
pub mod geometry;
pub mod label;
pub mod model;
pub mod pipeline;
pub mod raster;
pub mod steganography;
