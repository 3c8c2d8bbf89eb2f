//! The first generation of the module exporter's layer naming.
use vstd::prelude::*;

use crate::text::{split_on, split_text, texts, trim, trim_text};

verus! {

/// The first `|`-separated piece of a layer's name, trimmed.
pub open spec fn spec_base_name(name: Seq<char>) -> Seq<char> {
    trim_text(split_text(name, '|')[0])
}

/// The base name of a layer: its first `|`-separated piece, trimmed (case kept).
pub fn base_name(name: &str) -> (r: String)
    ensures
        r@ == spec_base_name(name@),
{
    let pieces = split_on(name, '|');
    proof {
        crate::text::lemma_split_text_nonempty(name@, '|');
    }
    assert(texts(pieces@)[0] == pieces@[0]@);
    trim(pieces[0].as_str())
}

} // verus!
