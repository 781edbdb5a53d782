//! Integer core of a stochastic path tracer: the pixel grid and its split
//! among render workers, the merge of their results into one image, the
//! bounce-depth policy of a traced path, and the plain-text image encoding.

pub mod color;
pub mod grid;
pub mod partition;
pub mod path;
pub mod ppm;

pub use color::ColorU8;
