//! What the Homebrew logic lists and compares.
use vstd::prelude::*;

verus! {

/// Represents the type of software to list in Homebrew.
pub enum BrewListType {
    /// Lists casks (inside caskroom).
    Cask,
    /// Lists formulae (inside cellar).
    Formula,
    /// Lists only the dependencies.
    Dependency,
    /// Lists taps.
    Tap,
}

/// Struct representing the diff between config and installed Homebrew state.
pub struct BrewDiff {
    pub missing_formulae: Vec<String>,
    pub extra_formulae: Vec<String>,
    pub missing_casks: Vec<String>,
    pub extra_casks: Vec<String>,
    pub missing_taps: Vec<String>,
    pub extra_taps: Vec<String>,
}

/// The lists of a [`BrewDiff`], each by the characters of its names, in the
/// order of the fields.
pub open spec fn diff_view(d: BrewDiff) -> Seq<Seq<Seq<char>>> {
    seq![
        names_view(d.missing_formulae@),
        names_view(d.extra_formulae@),
        names_view(d.missing_casks@),
        names_view(d.extra_casks@),
        names_view(d.missing_taps@),
        names_view(d.extra_taps@),
    ]
}

pub open spec fn names_view(v: Seq<String>) -> Seq<Seq<char>> {
    crate::domains::collector::strings_view(v)
}

} // verus!
