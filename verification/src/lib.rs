//! A dense, row-major grid of pixels of any type, with coordinate indexing,
//! flat views of the storage, and pixel-wise conversion between pixel types.

pub mod image;
pub mod layout;
