use vstd::prelude::*;

verus! {

/// Default upper bound on the number of elements handed to a worker at a time.
pub const DEFAULT_CHUNK_SIZE: usize = 100;

/// Default number of elements processed between two progress notifications.
pub const DEFAULT_BAR_STEP: usize = 10;

/// Immutable parameters for one or more runs of the engine.
pub struct Config {
    /// Number of workers launched (or reused) per run; must be positive.
    pub thread_count: usize,
    /// Upper bound on the number of elements handed to a worker per dispatch;
    /// must be positive.
    pub chunk_size: usize,
    /// Number of elements processed between two progress notifications; must
    /// be positive.
    pub bar_step: usize,
    /// Whether progress is reported at `bar_step` granularity.
    pub progress_bar: bool,
}

/// Relies on `num_cpus::get`: the number of logical CPUs of the running
/// system, which is always at least one.
#[verifier::external_body]
fn detected_cpu_count() -> (r: usize)
    ensures
        1 <= r,
{
    num_cpus::get()
}

impl Config {
    /// A configuration is well formed when every count in it is positive.
    pub open spec fn wf(self) -> bool {
        &&& 1 <= self.thread_count
        &&& 1 <= self.chunk_size
        &&& 1 <= self.bar_step
    }

    /// The chunk size used at dispatch time: the configured chunk size, capped
    /// at `len / thread_count + 1` so that no single worker can claim the
    /// whole input while the others idle.
    pub open spec fn spec_effective_chunk_size(self, len: int) -> int {
        let cap = len / (self.thread_count as int) + 1;
        if self.chunk_size as int <= cap {
            self.chunk_size as int
        } else {
            cap
        }
    }

    /// The granularity at which a run reports progress: the configured step
    /// when reporting is on, otherwise one whole dispatch chunk, which makes
    /// the window subdivision invisible.
    pub open spec fn spec_report_step(self, len: int) -> int {
        if self.progress_bar {
            self.bar_step as int
        } else {
            self.spec_effective_chunk_size(len)
        }
    }

    /// Computes the dispatch-time chunk size; always positive.
    pub fn effective_chunk_size(&self, len: usize) -> (r: usize)
        requires
            self.wf(),
        ensures
            r == self.spec_effective_chunk_size(len as int),
            1 <= r,
    {
        let cap: usize = len / self.thread_count;
        if self.chunk_size <= cap {
            self.chunk_size
        } else {
            cap + 1
        }
    }
}

impl core::default::Default for Config {
    /// The default configuration: one worker per detected logical CPU, the
    /// default chunk size and progress step, progress reporting enabled.
    fn default() -> (r: Self)
        ensures
            r.wf(),
            r.chunk_size == DEFAULT_CHUNK_SIZE,
            r.bar_step == DEFAULT_BAR_STEP,
            r.progress_bar,
    {
        Config {
            thread_count: detected_cpu_count(),
            chunk_size: DEFAULT_CHUNK_SIZE,
            bar_step: DEFAULT_BAR_STEP,
            progress_bar: true,
        }
    }
}

} // verus!
