//! Little-endian integers read from byte sequences.

use vstd::prelude::*;

verus! {

/// 256 to the power `n`.
pub open spec fn pow256(n: nat) -> nat
    decreases n,
{
    if n == 0 {
        1
    } else {
        256 * pow256((n - 1) as nat)
    }
}

/// The unsigned integer that the `n` bytes of `s` from `at` on encode, least
/// significant byte first.
pub open spec fn le_value(s: Seq<u8>, at: int, n: nat) -> nat
    decreases n,
{
    if n == 0 {
        0
    } else {
        (s[at] + 256 * le_value(s, at + 1, (n - 1) as nat)) as nat
    }
}

proof fn lemma_le_value_bound(s: Seq<u8>, at: int, n: nat)
    ensures
        le_value(s, at, n) < pow256(n),
    decreases n,
{
    if n > 0 {
        lemma_le_value_bound(s, at + 1, (n - 1) as nat);
        let v = le_value(s, at + 1, (n - 1) as nat);
        let p = pow256((n - 1) as nat);
        let b = s[at];
        assert(b + 256 * v < 256 * p) by (nonlinear_arith)
            requires
                0 <= b < 256,
                v < p,
        ;
    }
}

proof fn lemma_pow256_values()
    ensures
        pow256(0) == 1,
        pow256(4) == 0x1_0000_0000,
        pow256(8) == 0x1_0000_0000_0000_0000,
{
    reveal_with_fuel(pow256, 9);
}

/// The `n` bytes of `s` from `at` on, as a little-endian integer.
pub fn read_le(s: &[u8], at: usize, n: usize) -> (r: u64)
    requires
        n <= 8,
        at + n <= s@.len(),
    ensures
        r == le_value(s@, at as int, n as nat),
{
    let mut v: u64 = 0;
    let mut k: usize = n;
    let len = s.len();
    proof {
        lemma_pow256_values();
    }
    while k > 0
        invariant
            n <= 8,
            at + n <= s@.len(),
            0 <= k <= n,
            len == s@.len(),
            v == le_value(s@, at + k, (n - k) as nat),
        decreases k,
    {
        proof {
            lemma_le_value_bound(s@, at + k, (n - k) as nat);
            lemma_pow256_mono((n - k) as nat, 7);
            lemma_pow256_values();
            reveal_with_fuel(pow256, 8);
        }
        let b = s[at + (k - 1)];
        v = v * 256 + b as u64;
        k -= 1;
    }
    v
}

proof fn lemma_pow256_mono(a: nat, b: nat)
    requires
        a <= b,
    ensures
        pow256(a) <= pow256(b),
    decreases b,
{
    if a < b {
        lemma_pow256_mono(a, (b - 1) as nat);
    }
}

/// The four bytes of `s` from `at` on, as a little-endian `u32`.
pub fn read_u32_le(s: &[u8], at: usize) -> (r: u32)
    requires
        at + 4 <= s@.len(),
    ensures
        r == le_value(s@, at as int, 4),
{
    proof {
        lemma_le_value_bound(s@, at as int, 4);
        lemma_pow256_values();
    }
    read_le(s, at, 4) as u32
}

/// The eight bytes of `s` from `at` on, as a little-endian `u64`.
pub fn read_u64_le(s: &[u8], at: usize) -> (r: u64)
    requires
        at + 8 <= s@.len(),
    ensures
        r == le_value(s@, at as int, 8),
{
    read_le(s, at, 8)
}

} // verus!
