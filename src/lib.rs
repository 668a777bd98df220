//! Scaffolding support for JUCE/CMake projects: registering new source files
//! in a build script and locating the executable a build produced.

pub mod text;
pub mod scanner;
pub mod inject;
pub mod resolve;
pub mod context;
pub mod create_files;
