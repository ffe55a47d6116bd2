//! Daily security-camera report pipeline: extraction of inferred risk
//! annotations from raw events, batch statistics, outlier selection and
//! the text handling around a language-model summary.
use vstd::prelude::*;

pub mod event;
pub mod json;
pub mod report;
pub mod score;
pub mod stats;
pub mod summary;
pub mod text;

verus! {

} // verus!
