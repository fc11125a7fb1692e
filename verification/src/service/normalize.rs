//! The standard normalizer: a document of the text.
use vstd::prelude::*;

use crate::domain::document::{is_fast_path, norm_map, norm_text, Document};
use crate::textops::byte_len;

verus! {

/// The standard normalizer.
pub struct DefaultNormalizer;

impl DefaultNormalizer {
    /// The document of a text (see `Document::new`).
    pub fn normalize<'a>(&self, text: &'a str) -> (d: Document<'a>)
        requires
            byte_len(text@) <= u32::MAX,
        ensures
            d.wf(),
            d.original == text,
            is_fast_path(text@) ==> d.norm@ == text@ && d.offsets().len() == 0,
            !is_fast_path(text@) ==> d.norm@ == norm_text(text@) && d.offsets() == norm_map(text@).push(
                byte_len(text@) as u32,
            ),
    {
        Document::new(text)
    }
}

} // verus!
