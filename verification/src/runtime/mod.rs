pub mod conformance;
pub mod decode;
pub mod encode;
pub mod indexed;
pub mod lossless;
pub mod quantize;
pub mod rle;
pub mod transform;
