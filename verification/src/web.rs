//! Requests of the web dashboard, and the runs they configure.
use vstd::prelude::*;
use crate::fuzzer::FuzzConfig;
use crate::spec::InvariantSpec;

verus! {

/// A request to start a fuzzing run, as the dashboard's form sends it.
#[derive(Debug, Clone)]
pub struct FuzzRequest {
    /// The `.aleo` file to fuzz.
    pub file_path: String,
    /// An invariant specification to read (empty: none).
    pub spec_path: Option<String>,
    /// A Leo project for verification with `leo run` (empty: none).
    pub project_dir: Option<String>,
    /// A Leo source project to compile first.
    pub source_dir: Option<String>,
    pub runs: u32,
    /// Seed of the random inputs (0: taken from the clock).
    pub seed: u64,
    /// Fuzz only this function (empty: all).
    pub function_filter: Option<String>,
    /// Verify every case with `leo run`.
    pub verify_all: bool,
}

/// An optional form field as the run reads it: a field left empty counts
/// as absent.
pub open spec fn filled(field: Option<String>) -> Option<Seq<char>> {
    match field {
        Some(t) => if t@.len() > 0 {
            Some(t@)
        } else {
            None
        },
        None => None,
    }
}

/// The text of `field` if it was filled in.
pub fn filled_in(field: &Option<String>) -> (r: Option<String>)
    ensures
        match r {
            Some(t) => filled(*field) == Some(t@),
            None => filled(*field) is None,
        },
{
    match field {
        Some(t) => if t.as_str().unicode_len() > 0 {
            Some(t.clone())
        } else {
            None
        },
        None => None,
    }
}

/// The seed a run uses: the requested one, or when 0 was requested, the
/// clock's seconds (42 when the clock could not be read).
pub open spec fn seed_used(requested: u64, clock_secs: Option<u64>) -> u64 {
    if requested == 0 {
        match clock_secs {
            Some(s) => s,
            None => 42,
        }
    } else {
        requested
    }
}

/// The seed a run uses, given the requested seed and the clock's reading.
pub fn effective_seed(requested: u64, clock_secs: Option<u64>) -> (r: u64)
    ensures
        r == seed_used(requested, clock_secs),
{
    if requested == 0 {
        match clock_secs {
            Some(s) => s,
            None => 42,
        }
    } else {
        requested
    }
}

impl FuzzRequest {
    /// The specification file to read, if the field was filled in.
    pub fn spec_file(&self) -> (r: Option<String>)
        ensures
            match r {
                Some(t) => filled(self.spec_path) == Some(t@),
                None => filled(self.spec_path) is None,
            },
    {
        filled_in(&self.spec_path)
    }

    /// The configuration of the requested run, with seed `seed` and the
    /// specification `spec` read from `spec_file`. Empty fields count as
    /// absent, but for the source project, which is passed on as given.
    pub fn config(&self, seed: u64, spec: Option<InvariantSpec>) -> (r: FuzzConfig)
        ensures
            r.runs == self.runs,
            r.seed == seed,
            match r.function_filter {
                Some(f) => filled(self.function_filter) == Some(f@),
                None => filled(self.function_filter) is None,
            },
            r.include_edge_cases,
            r.spec == spec,
            match r.project_dir {
                Some(d) => filled(self.project_dir) == Some(d@),
                None => filled(self.project_dir) is None,
            },
            r.verify_all_with_leo == self.verify_all,
            r.source_dir == self.source_dir,
    {
        let project_dir = filled_in(&self.project_dir);
        let source_dir = match &self.source_dir {
            Some(d) => Some(d.clone()),
            None => None,
        };
        FuzzConfig {
            runs: self.runs,
            seed,
            function_filter: filled_in(&self.function_filter),
            include_edge_cases: true,
            spec,
            project_dir,
            verify_all_with_leo: self.verify_all,
            source_dir,
        }
    }
}

} // verus!
