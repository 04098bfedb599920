pub mod decision;
pub mod exhaustive;
pub mod laws;
pub mod matrix;
pub mod measure;
pub mod pattern;

pub mod render;
pub mod usefulness;
pub mod validate;
