//! The stages of the verification pipeline that run without waiting on
//! outside services.

use vstd::prelude::*;

verus! {

/// Cuts an input text into the fragments that the pipeline checks one by one.
pub trait InputSplitter: Send + Sync {
    /// The fragments of `input`, in order.
    fn split(&self, input: &str) -> Vec<String>;
}

} // verus!
