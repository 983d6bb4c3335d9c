//! How a benchmark case is timed: warm-up runs, then timed ones.

use vstd::prelude::*;

verus! {

/// How a case is timed: `warmup` untimed runs, then `iterations` timed
/// ones. `iterations` is at least one.
#[derive(Debug, Clone, Copy, PartialEq, Eq, Structural)]
pub struct Config {
    /// Runs before timing, to fault in the code and the allocator's pages.
    pub warmup: usize,
    /// Timed runs.
    pub iterations: usize,
}

impl Default for Config {
    /// One warm-up and five timed runs: a median of five survives two
    /// outliers, and the whole corpus stays a few minutes.
    fn default() -> (c: Self)
        ensures
            c.warmup == 1,
            c.iterations == 5,
    {
        Config { warmup: 1, iterations: 5 }
    }
}

impl Config {
    /// The runs that are timed: `iterations`, and at least one.
    pub fn timed_runs(&self) -> (n: usize)
        ensures
            n == if self.iterations == 0 { 1 } else { self.iterations },
    {
        if self.iterations == 0 {
            1
        } else {
            self.iterations
        }
    }
}

} // verus!
