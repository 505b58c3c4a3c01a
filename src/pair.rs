use vstd::prelude::*;

verus! {

/// Two values side by side; a parameter is a `Pair` of its name and type.
#[derive(Debug, Clone)]
pub struct Pair<A, B>(pub A, pub B);

} // verus!
