use vstd::prelude::*;

pub mod ivec;

pub use ivec::IVec;

verus! {

/// `n` is a power of two.
pub open spec fn is_power_two(n: nat) -> bool
    decreases n,
{
    n == 1 || (n > 1 && n % 2 == 0 && is_power_two(n / 2))
}

/// Of two different powers of two the greater is at least twice the smaller.
pub proof fn lemma_power_two_gap(a: nat, b: nat)
    requires
        is_power_two(a),
        is_power_two(b),
        a < b,
    ensures
        2 * a <= b,
    decreases a + b,
{
    if a < b / 2 {
        lemma_power_two_gap(a, b / 2);
    } else if b / 2 < a {
        lemma_power_two_gap(b / 2, a);
    }
}

/// The smallest power of two that is greater than or equal to `n`.
pub fn ceil_power_two(n: usize) -> (r: usize)
    requires
        n <= usize::MAX / 2 + 1,
    ensures
        is_power_two(r as nat),
        r >= n,
        forall|m: nat| is_power_two(m) && m >= n ==> r <= m,
{
    let mut r: usize = 1;
    while r < n
        invariant
            n <= usize::MAX / 2 + 1,
            r >= 1,
            is_power_two(r as nat),
            r == 1 || r / 2 < n,
        decreases
                (if n > r {
                    n - r
                } else {
                    0
                }),
    {
        r = r * 2;
    }
    proof {
        assert forall|m: nat| is_power_two(m) && m >= n implies r <= m by {
            if m < r {
                lemma_power_two_gap(m, r as nat);
            }
        }
    }
    r
}

} // verus!
