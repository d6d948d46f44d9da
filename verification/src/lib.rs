//! A physically based renderer's scene-description core: the PCG random number
//! generator, integer geometry, the scene file tokenizer and parser, parameter sets, the
//! scene API's state machine, file-name helpers, and the integer side of images and films.

pub mod geometry;
pub mod rng;
pub mod text;
pub mod paramset;
pub mod testutils;
pub mod parser;
pub mod fileutil;
pub mod options;
pub mod medium;
pub mod light;
pub mod texture;
pub mod mipmap;
pub mod spectrum;
pub mod api;
pub mod imageio;
pub mod film;
pub mod floatfile;

pub use options::Options;
