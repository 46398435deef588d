//! How an outside step reported back to a flow of the library.
use vstd::prelude::*;

verus! {

/// How the last outside step went.
pub enum Outcome {
    Succeeded,
    Failed { message: String },
}

} // verus!
