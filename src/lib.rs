//! A small dense-tensor library: a shape-checked container over a flat,
//! row-major buffer, with elementwise arithmetic, matrix multiplication,
//! transpose, reshape, unsqueeze and concatenation, all proved against a
//! mathematical model of shapes and offsets; with the in-memory reading of
//! the MNIST image and label files, and the first neural-network modules.

pub mod text;
pub mod traits;
pub mod render;
pub mod shape;
pub mod tensor;
pub mod algebra;
pub mod data;
pub mod dataset;
pub mod dataloader;
pub mod nn;
