//! Dominant-color extraction and palette framing for raster images.
pub mod colors;
pub mod raster;
pub mod layout;
pub mod paint;
pub mod picture;
pub mod img_copy;
pub mod img_processor;
pub mod histogram;
pub mod selection;
pub mod utils;
pub mod filters;
