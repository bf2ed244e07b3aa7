//! Chunked file-upload handling: request validation, per-chunk persistence,
//! completion detection, and ordered reassembly of the final artifact.
//!
//! The state an upload passes through is exactly "which chunk files exist and
//! what they hold"; this crate models that state as explicit values and proves
//! the handler's behaviour over them. The surrounding process (HTTP transport,
//! real file I/O) drives the verified logic from outside the crate.
use vstd::prelude::*;

pub mod errors;
pub mod laws;
pub mod numerals;
pub mod request;
pub mod server;
pub mod storage;
pub mod tables;

pub use errors::SliceBreadServerError;
pub use request::{ChunkMeta, UploadRequest};
pub use server::{SliceBreadServer, UploadResponse};
pub use storage::Storage;

verus! {

/// Process configuration: the TCP port the listener binds.
pub struct Args {
    pub port: u16,
}

} // verus!
