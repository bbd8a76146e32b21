//! Reading Blitz3D `.b3d` models and laying them out for glTF 2.0.
pub mod bytes;
pub mod text;
pub mod b3d_format;
pub mod b3d_parser;
pub mod math;
pub mod b3d;
pub mod writer;
pub mod texture;
pub mod cli;
