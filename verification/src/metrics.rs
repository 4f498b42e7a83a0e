//! Measures derived from counters and from the rate limiter.

use crate::client::RequestType;
use vstd::prelude::*;

verus! {

/// How far a run is behind its schedule: the time that the limiter's unspent
/// tokens are worth at its rate, in nanoseconds. The product is counted in a
/// machine integer that saturates.
pub open spec fn slip_spec(available: nat, rate: nat) -> nat {
    let product = available * 1_000_000_000;
    if rate == 0 {
        0
    } else if product > u64::MAX {
        u64::MAX as nat / rate
    } else {
        product / rate
    }
}

/// Schedule slip in nanoseconds: backlog over rate, zero without a rate.
pub fn slip_ns(available: u64, rate: u64) -> (r: u64)
    ensures
        r == slip_spec(available as nat, rate as nat),
{
    if rate == 0 {
        return 0;
    }
    let product: u64 = match available.checked_mul(1_000_000_000) {
        Some(p) => p,
        None => u64::MAX,
    };
    product / rate
}

/// A run without a rate has no schedule to be behind of.
pub proof fn no_rate_means_no_slip(available: nat)
    ensures
        slip_spec(available, 0) == 0,
{
}

/// A larger backlog is a larger slip.
pub proof fn slip_grows_with_the_backlog(a: nat, b: nat, rate: nat)
    requires
        a <= b,
    ensures
        slip_spec(a, rate) <= slip_spec(b, rate),
{
    if rate > 0 {
        let x = if a * 1_000_000_000 > u64::MAX {
            u64::MAX as nat
        } else {
            a * 1_000_000_000
        };
        let y = if b * 1_000_000_000 > u64::MAX {
            u64::MAX as nat
        } else {
            b * 1_000_000_000
        };
        vstd::arithmetic::div_mod::lemma_div_is_ordered(x as int, y as int, rate as int);
    }
}

/// Perceived latency: what a request took, and how late it was sent.
pub fn perceived_ns(latency_ns: u64, slip_ns: u64) -> (r: u64)
    requires
        latency_ns + slip_ns <= u64::MAX,
    ensures
        r == latency_ns + slip_ns,
{
    latency_ns + slip_ns
}

/// What a completed command adds to the histograms and the byte counters.
#[derive(Clone, Copy, Debug, PartialEq, Eq, Structural)]
pub struct Observation {
    pub get_ns: Option<u64>,
    pub get_ttfb_ns: Option<u64>,
    pub set_ns: Option<u64>,
    pub delete_ns: Option<u64>,
    pub response_ns: u64,
    pub perceived_ns: u64,
    pub bytes_tx: u64,
    pub bytes_rx: u64,
}

/// A command as its client reports it.
#[derive(Clone, Copy, Debug, PartialEq, Eq, Structural)]
pub struct Completed {
    pub command: RequestType,
    pub latency_ns: u64,
    /// Time to the first byte of the reply, where the kernel stamped it.
    pub ttfb_ns: Option<u64>,
    pub tx_bytes: u32,
    pub rx_bytes: u32,
}

/// What a completed command adds: every command to the response and the
/// perceived latency, each of the three kinds to its own, a GET also to the
/// time to first byte. A ping counts as a GET.
pub fn observe(c: &Completed, slip_ns: u64) -> (r: Observation)
    requires
        c.latency_ns + slip_ns <= u64::MAX,
    ensures
        r == (Observation {
            get_ns: if c.command == RequestType::Get || c.command == RequestType::Ping {
                Some(c.latency_ns)
            } else {
                None
            },
            get_ttfb_ns: if c.command == RequestType::Get {
                c.ttfb_ns
            } else {
                None
            },
            set_ns: if c.command == RequestType::Store {
                Some(c.latency_ns)
            } else {
                None
            },
            delete_ns: if c.command == RequestType::Delete {
                Some(c.latency_ns)
            } else {
                None
            },
            response_ns: c.latency_ns,
            perceived_ns: (c.latency_ns + slip_ns) as u64,
            bytes_tx: c.tx_bytes as u64,
            bytes_rx: c.rx_bytes as u64,
        }),
{
    let mut r = Observation {
        get_ns: None,
        get_ttfb_ns: None,
        set_ns: None,
        delete_ns: None,
        response_ns: c.latency_ns,
        perceived_ns: perceived_ns(c.latency_ns, slip_ns),
        bytes_tx: c.tx_bytes as u64,
        bytes_rx: c.rx_bytes as u64,
    };
    match c.command {
        RequestType::Get => {
            r.get_ns = Some(c.latency_ns);
            r.get_ttfb_ns = c.ttfb_ns;
        },
        RequestType::Ping => {
            r.get_ns = Some(c.latency_ns);
        },
        RequestType::Store => {
            r.set_ns = Some(c.latency_ns);
        },
        RequestType::Delete => {
            r.delete_ns = Some(c.latency_ns);
        },
        RequestType::Other => {},
    }
    r
}

/// The slip is the time, in whole nanoseconds, that the backlog takes at the
/// rate: no shorter time and no longer one would do, as long as the backlog
/// can be counted in nanoseconds.
pub proof fn slip_is_the_time_of_the_backlog(available: nat, rate: nat)
    requires
        rate > 0,
        available * 1_000_000_000 <= u64::MAX,
    ensures
        slip_spec(available, rate) * rate <= available * 1_000_000_000,
        available * 1_000_000_000 < (slip_spec(available, rate) + 1) * rate,
{
    let n = (available * 1_000_000_000) as int;
    let d = rate as int;
    let q = n / d;
    let rest = n % d;
    vstd::arithmetic::div_mod::lemma_fundamental_div_mod(n, d);
    assert(q * d == d * q) by (nonlinear_arith);
    assert((q + 1) * d == d * q + d) by (nonlinear_arith);
}

} // verus!
