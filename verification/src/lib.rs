//! Translate between a content-addressed commit store and a portable tar
//! archive layout, and locate the commit-bearing layer of a container image.
//!
//! The export half walks a commit's directory tree and produces the exact,
//! ordered list of archive entries (paths, modes, data, links) that make up
//! the repository layout inside a container layer. The import half holds the
//! decision logic of the fetch pipeline: selecting the commit-bearing layer
//! from a manifest, scanning a staged archive for that layer, and tracking
//! download progress.

use vstd::prelude::*;

pub mod digest;
pub mod export;
pub mod import;
pub mod paths;
pub mod progress;

verus! {

/// Configuration for tar export.
#[derive(Clone, Copy, PartialEq, Eq, Structural, Debug)]
pub struct ExportOptions {
    /// Format version; must be 0 or 1.
    pub format_version: u32,
}

impl ExportOptions {
    /// The format versions with a defined archive layout.
    pub open spec fn is_supported(&self) -> bool {
        self.format_version == 0 || self.format_version == 1
    }
}

impl Default for ExportOptions {
    /// The default export format is version 0.
    fn default() -> (r: Self)
        ensures
            r.format_version == 0,
    {
        ExportOptions { format_version: 0 }
    }
}

} // verus!
