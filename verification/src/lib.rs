//! Verified core of a train-sighting detector: pixel formats, JPEG stream
//! framing, frame stitching, file naming and the small decision rules that
//! surround them.

pub mod fourcc;
pub mod jpeg_scan;
pub mod raster;
pub mod convert;
pub mod stitch;
pub mod text;
pub mod ts;
pub mod datastore;
pub mod queries;
pub mod multipart;
pub mod config;
pub mod detect;
pub mod picam;
pub mod http;
pub mod probe;
pub mod sequence;
pub mod mkv;
pub mod imageio;
pub mod stats;
pub mod motion;
pub mod gif;
pub mod sources;
pub mod served;
pub mod stitcher;
