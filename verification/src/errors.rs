use vstd::prelude::*;

verus! {

/// The failure taxonomy of the pipeline. Every failure is structural
/// (bad input, bad arithmetic, unavailable store) and fatal to the
/// worker that raises it; nothing in the pipeline is retried.
#[derive(Clone, Copy, Debug, PartialEq, Eq, Structural)]
pub enum PipelineError {
    /// The source dataset is unreadable, missing, or malformed.
    DatasetOpen,
    /// A requested pixel window exceeds the dataset bounds, or the
    /// requested band is absent.
    RasterRead,
    /// The store rejected a batch (duplicate id).
    Persistence,
}

} // verus!
