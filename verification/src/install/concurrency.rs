//! How much a fetch does at once.
use vstd::prelude::*;

verus! {

/// How many tarballs are fetched at once: what the environment says, else the
/// setting, else the default.
pub open spec fn chosen_concurrency(env: Option<usize>, setting: Option<usize>, default: usize) -> usize {
    match env {
        Some(n) => n,
        None => match setting {
            Some(n) => n,
            None => default,
        },
    }
}

/// How many tarballs are fetched at once.
pub fn fetch_network_concurrency(env: Option<usize>, setting: Option<usize>, default: usize) -> (r: usize)
    ensures
        r == chosen_concurrency(env, setting, default),
{
    match env {
        Some(n) => n,
        None => match setting {
            Some(n) => n,
            None => default,
        },
    }
}

/// The greater of two numbers.
pub open spec fn greater(a: int, b: int) -> int {
    if a < b {
        b
    } else {
        a
    }
}

/// How many resolved packages may wait for the fetch: sixteen for each tarball
/// that is fetched at once, and a thousand and twenty-four at least.
pub fn stream_capacity(concurrency: usize) -> (r: usize)
    ensures
        r == if concurrency * 16 > usize::MAX {
            usize::MAX as int
        } else {
            greater(concurrency * 16, 1024)
        },
{
    let n: usize = if concurrency > usize::MAX / 16 {
        usize::MAX
    } else {
        concurrency * 16
    };
    if n < 1024 {
        1024
    } else {
        n
    }
}

/// The bounds of an adaptive limit.
#[derive(Debug, Clone, Copy, PartialEq, Eq, Structural)]
pub struct Limits {
    /// Where it starts.
    pub seed: usize,
    /// What it never goes below.
    pub floor: usize,
    /// What it never goes above.
    pub ceiling: usize,
}

/// The bounds within which the number of tarballs fetched at once adapts.
pub fn tarball_limits(concurrency: usize) -> (r: Limits)
    ensures
        r.seed == greater(concurrency as int, 4),
        r.floor == 4,
        r.ceiling == greater(r.seed as int, 256),
        r.floor <= r.seed <= r.ceiling,
{
    let seed: usize = if concurrency < 4 {
        4
    } else {
        concurrency
    };
    let ceiling: usize = if seed < 256 {
        256
    } else {
        seed
    };
    Limits { seed, floor: 4, ceiling }
}

} // verus!
