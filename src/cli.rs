//! Run settings and the choice of what a run reads.
use crate::filters::Filters;
use vstd::prelude::*;

verus! {

/// Settings of one run.
#[derive(Clone, Debug)]
pub struct CliArgs {
    /// A local snapshot archive.
    pub path: Option<String>,
    /// Time the pipeline stages on the archive at `path` instead of extracting.
    pub bench: bool,
    /// Find the fastest peer serving a snapshot and stream from it.
    pub discover: bool,
    /// With `discover`, look for an incremental snapshot.
    pub incremental: bool,
    pub filters: Filters,
}

/// What a run does with its input.
#[derive(Clone, Copy, Debug, PartialEq, Eq)]
pub enum InputPlan {
    /// Time the stages on the local archive.
    Bench,
    /// Extract from the local archive.
    File,
    /// Extract from a snapshot streamed from a discovered peer.
    Discover,
}

/// Why the settings name no input.
#[derive(Clone, Copy, Debug, PartialEq, Eq)]
pub enum UsageError {
    /// `bench` was asked for without `path`.
    BenchWithoutPath,
    /// Neither `path` nor `discover` was given.
    NoSource,
}

/// The plan for settings with these flags: benchmarking needs a path; a path
/// wins over discovery; with neither there is no input.
pub open spec fn plan_of(bench: bool, has_path: bool, discover: bool) -> Result<InputPlan, UsageError> {
    if bench {
        if has_path {
            Ok(InputPlan::Bench)
        } else {
            Err(UsageError::BenchWithoutPath)
        }
    } else if has_path {
        Ok(InputPlan::File)
    } else if discover {
        Ok(InputPlan::Discover)
    } else {
        Err(UsageError::NoSource)
    }
}

impl CliArgs {
    /// Decides what the run reads.
    pub fn plan(&self) -> (r: Result<InputPlan, UsageError>)
        ensures
            r == plan_of(self.bench, self.path is Some, self.discover),
    {
        if self.bench {
            if self.path.is_some() {
                Ok(InputPlan::Bench)
            } else {
                Err(UsageError::BenchWithoutPath)
            }
        } else if self.path.is_some() {
            Ok(InputPlan::File)
        } else if self.discover {
            Ok(InputPlan::Discover)
        } else {
            Err(UsageError::NoSource)
        }
    }
}

} // verus!
