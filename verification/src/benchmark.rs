//! The durations of benchmark runs and what is reported of them.
use crate::text::{nat_text, u64_to_string, usize_to_string};
use vstd::prelude::*;

verus! {

/// The number of nanoseconds in a second.
pub const NANOS_PER_SEC: u32 = 1_000_000_000;

/// A span of time: whole seconds and the nanoseconds of the second begun.
#[derive(Clone, Copy, Debug, PartialEq, Eq, Structural)]
pub struct Duration {
    secs: u64,
    nanos: u32,
}

impl Duration {
    /// The span in nanoseconds.
    pub closed spec fn total_nanos(self) -> nat {
        (self.secs as nat) * 1_000_000_000 + self.nanos as nat
    }

    /// The nanoseconds lie below a second.
    pub closed spec fn wf(self) -> bool {
        self.nanos < 1_000_000_000
    }

    /// The longest span that can be held.
    pub open spec fn max_nanos() -> nat {
        (u64::MAX as nat) * 1_000_000_000 + 999_999_999
    }

    /// A span of whole seconds.
    pub fn from_secs(secs: u64) -> (d: Self)
        ensures
            d.wf(),
            d.total_nanos() == secs as nat * 1_000_000_000,
    {
        Duration { secs, nanos: 0 }
    }

    /// A span of `secs` seconds and `nanos` nanoseconds.
    pub fn new(secs: u64, nanos: u32) -> (d: Self)
        requires
            nanos < 1_000_000_000,
        ensures
            d.wf(),
            d.total_nanos() == secs as nat * 1_000_000_000 + nanos as nat,
    {
        Duration { secs, nanos }
    }

    /// The whole seconds of the span.
    pub fn as_secs(&self) -> (s: u64)
        requires
            self.wf(),
        ensures
            s == self.total_nanos() / 1_000_000_000,
    {
        proof {
            let n = self.nanos as nat;
            let q = self.secs as nat;
            assert((q * 1_000_000_000 + n) / 1_000_000_000 == q) by (nonlinear_arith)
                requires
                    n < 1_000_000_000,
            ;
        }
        self.secs
    }

    /// The nanoseconds of the second begun.
    pub fn subsec_nanos(&self) -> (n: u32)
        requires
            self.wf(),
        ensures
            n == self.total_nanos() % 1_000_000_000,
    {
        proof {
            let n = self.nanos as nat;
            let q = self.secs as nat;
            assert((q * 1_000_000_000 + n) % 1_000_000_000 == n) by (nonlinear_arith)
                requires
                    n < 1_000_000_000,
            ;
        }
        self.nanos
    }

    /// The sum of two spans, if it can be held.
    pub fn checked_add(&self, other: &Duration) -> (r: Option<Duration>)
        requires
            self.wf(),
            other.wf(),
        ensures
            r is Some <==> self.total_nanos() + other.total_nanos() <= Self::max_nanos(),
            r matches Some(d) ==> d.wf() && d.total_nanos() == self.total_nanos()
                + other.total_nanos(),
    {
        let mut nanos: u32 = self.nanos + other.nanos;
        let mut carry: u64 = 0;
        if nanos >= NANOS_PER_SEC {
            nanos = nanos - NANOS_PER_SEC;
            carry = 1;
        }
        match self.secs.checked_add(other.secs) {
            None => None,
            Some(s) => match s.checked_add(carry) {
                None => None,
                Some(secs) => Some(Duration { secs, nanos }),
            },
        }
    }

    /// The span divided by `n`, rounded down to the nanosecond.
    pub fn div(&self, n: u32) -> (r: Duration)
        requires
            self.wf(),
            n > 0,
        ensures
            r.wf(),
            r.total_nanos() == self.total_nanos() / n as nat,
    {
        let total: u128 = (self.secs as u128) * 1_000_000_000 + self.nanos as u128;
        let q: u128 = total / (n as u128);
        let secs: u128 = q / 1_000_000_000;
        let nanos: u128 = q % 1_000_000_000;
        proof {
            assert(q <= total);
            assert(secs * 1_000_000_000 + nanos == q);
            assert(secs <= u64::MAX) by (nonlinear_arith)
                requires
                    secs * 1_000_000_000 + nanos == q,
                    q <= total,
                    total <= (u64::MAX as u128) * 1_000_000_000 + 999_999_999,
                    nanos >= 0,
            ;
        }
        Duration { secs: secs as u64, nanos: nanos as u32 }
    }
}

/// What is kept of one run.
#[derive(Clone, Copy, Debug)]
pub struct RunData {
    pub duration: Duration,
}

/// The runs of a benchmark.
pub struct BenchmarkData {
    pub runs: Vec<RunData>,
}

/// The durations of the first `n` runs added up, in nanoseconds.
pub open spec fn total_of(runs: Seq<RunData>, n: nat) -> nat
    decreases n,
{
    if n == 0 || n > runs.len() {
        0
    } else {
        total_of(runs, (n - 1) as nat) + runs[n - 1].duration.total_nanos()
    }
}

/// What the report of a benchmark says of `total` seconds over `n` runs.
pub open spec fn report_text(total: nat, n: nat) -> Seq<char> {
    "GOBOT-SIM BENCHMARK\n\t-total time: "@ + nat_text((total / 60) / 60) + ":"@ + nat_text(
        (total / 60) % 60,
    ) + ":"@ + nat_text(total % 60) + "\n\t-number of runs: "@ + nat_text(n)
}

impl BenchmarkData {
    /// Every duration is well formed and their sum can be held.
    pub open spec fn wf(self) -> bool {
        &&& forall|i: int| 0 <= i < self.runs@.len() ==> (#[trigger] self.runs@[i]).duration.wf()
        &&& total_of(self.runs@, self.runs@.len()) <= Duration::max_nanos()
    }

    /// The durations of all runs added up.
    pub fn total(&self) -> (d: Duration)
        requires
            self.wf(),
        ensures
            d.wf(),
            d.total_nanos() == total_of(self.runs@, self.runs@.len()),
    {
        let mut total = Duration::from_secs(0);
        let mut i: usize = 0;
        while i < self.runs.len()
            invariant
                i <= self.runs.len(),
                self.wf(),
                total.wf(),
                total.total_nanos() == total_of(self.runs@, i as nat),
            decreases self.runs.len() - i,
        {
            proof {
                lemma_total_grows(self.runs@, i as nat + 1, self.runs@.len());
            }
            match total.checked_add(&self.runs[i].duration) {
                Some(t) => {
                    total = t;
                },
                None => {},
            }
            i += 1;
        }
        total
    }

    /// The report: the total time as hours, minutes and seconds, and the
    /// number of runs.
    pub fn format_data(&self) -> (s: String)
        requires
            self.wf(),
        ensures
            s@ == report_text(
                total_of(self.runs@, self.runs@.len()) / 1_000_000_000,
                self.runs@.len(),
            ),
    {
        let total = self.total().as_secs();
        let seconds = total % 60;
        let minutes = (total / 60) % 60;
        let hours = (total / 60) / 60;
        let mut s = String::from_str("GOBOT-SIM BENCHMARK\n\t-total time: ");
        s.append(u64_to_string(hours).as_str());
        s.append(":");
        s.append(u64_to_string(minutes).as_str());
        s.append(":");
        s.append(u64_to_string(seconds).as_str());
        s.append("\n\t-number of runs: ");
        s.append(usize_to_string(self.runs.len()).as_str());
        s
    }

    /// The mean duration of a run, rounded down to the nanosecond.
    pub fn mean_time(&self) -> (d: Duration)
        requires
            self.wf(),
            0 < self.runs@.len() <= u32::MAX,
        ensures
            d.wf(),
            d.total_nanos() == total_of(self.runs@, self.runs@.len()) / self.runs@.len(),
    {
        self.total().div(self.runs.len() as u32)
    }
}

/// The sum of the first runs is no more than the sum of more of them.
pub proof fn lemma_total_grows(runs: Seq<RunData>, a: nat, b: nat)
    requires
        a <= b <= runs.len(),
    ensures
        total_of(runs, a) <= total_of(runs, b),
    decreases b,
{
    if a < b {
        lemma_total_grows(runs, a, (b - 1) as nat);
    }
}

} // verus!
