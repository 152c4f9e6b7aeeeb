//! The markdown pipeline behind the RenderMD editor: table parsing,
//! editing and serialisation, preprocessing passes over markdown source,
//! change and word diffs, image references, and document history
//! formatting.

use vstd::prelude::*;

pub mod diff;
pub mod emoji;
pub mod history;
pub mod image_edits;
pub mod images;
pub mod links;
pub mod preprocess;
pub mod render;
pub mod requests;
pub mod session;
pub mod tables;
pub mod template;
pub mod text;
pub mod theme;

verus! {

/// The version of this library.
pub fn version() -> (r: &'static str)
    ensures
        r@ == "0.1.0"@,
{
    "0.1.0"
}

} // verus!
