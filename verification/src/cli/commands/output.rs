//! Output options of the listing commands.
use vstd::prelude::*;

verus! {

/// Where and in which format a command writes its report.
#[derive(Debug)]
pub struct OutputArgs<F> {
    /// The report format.
    pub format: F,
    /// The file to write to; standard output when absent.
    pub output: Option<String>,
}

} // verus!
