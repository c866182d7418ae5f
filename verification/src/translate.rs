//! Languages that a response could be localised to.

use vstd::prelude::*;

verus! {

/// A target language for client-facing text.
#[derive(Clone, Copy, Debug, PartialEq, Eq, Hash, Structural)]
pub enum Language {
    Spanish,
    French,
}

} // verus!
