//! Sprite-sheet assembly for decoded Aseprite animations.
//!
//! A [`document::Document`] holds the decoded frames and the tag table of one
//! animation source, each frame as a [`raster::Raster`]. The planner in
//! [`plan`] lays the frames chosen by an ordered list of tags out on a grid,
//! and the compositor in [`compose`] copies them onto one RGBA8 sheet.
//! [`command`] holds the three requests built from these: converting a
//! single frame, assembling a sheet, and separating the first frame of each
//! tag.
//!
//! Reading and decoding the source and encoding and writing the images are
//! left to the caller.

pub mod command;
pub mod compose;
pub mod document;
pub mod error;
pub mod plan;
pub mod raster;
