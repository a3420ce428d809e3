//! Verified core of a plugin-project scaffolding tool.
//!
//! The library covers the template-acquisition and manifest-patching
//! pipeline of the scaffold: deriving the download location of a template
//! archive, planning a safe extraction of its entries (path-traversal
//! entries are skipped, never written), relocating the extracted tree to
//! its canonical place, structurally patching manifest documents, and
//! rendering the multi-platform CI build workflow.  Network and filesystem
//! work is left to a thin unverified driver; everything here computes on
//! plain byte values and carries a contract.

use vstd::prelude::*;

pub mod archive;
pub mod bytestr;
pub mod error;
pub mod extract;
pub mod json;
pub mod jsontext;
pub mod manifest;
pub mod paths;
pub mod pipeline;
pub mod roundtrip;
pub mod workflow;
