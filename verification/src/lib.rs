//! Frame buffers, camera loaders and the integer parts of the stitching
//! pipeline (pixel addressing, test patterns, image loading, gradient
//! blocks, gpu input layout), each stated as a contract and proved.
pub mod camera;
pub mod frame;
pub mod grad;
pub mod loader;
pub mod pattern;
pub mod pixel;
pub mod proj;
pub mod render;
