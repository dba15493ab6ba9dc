use vstd::prelude::*;

verus! {

/// The failure modes of the engine. All of them are fatal at the scope of one
/// run: the caller is expected to stop, not to recover.
#[derive(Clone, Copy, Debug, PartialEq, Eq, Structural)]
pub enum GrammarError {
    /// An id token is not a valid non-negative integer (or does not fit in
    /// `usize`).
    ParseError,
    /// A referenced rule id is absent from the rule store.
    LookupError,
    /// An assembled pattern is not a valid expression of the mini-language.
    PatternError,
    /// The expansion budget ran out before the expansion converged, as it
    /// does on a cyclic grammar.
    DepthError,
}

} // verus!
