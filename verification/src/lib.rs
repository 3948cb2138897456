//! Static-analysis toolkit for Unity IL2CPP builds: a reader for IL2CPP
//! metadata v39, recovery of generated protobuf packet schemas and envelope
//! tags, a passive protobuf wire decoder, and APK/XAPK input selection.
use vstd::prelude::*;

pub mod bytes;
pub mod error;
pub mod metadata;
pub mod native;
pub mod packets;
pub mod payload;
pub mod render;
pub mod text;
pub mod wire;
pub mod xapk;
