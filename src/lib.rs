// Packs a project's directory tree into one JSON bundle document, and
// unpacks such a document into a directory tree again. Build units, the
// directories that hold a build specification, are packed as the artifact
// that their build produces.

pub mod codec;
pub mod config;
pub mod error;
pub mod laws;
pub mod logger;
pub mod names;
pub mod pack;
pub mod runner;
pub mod scaffold;
pub mod tree;
pub mod unpack;
pub mod value;
