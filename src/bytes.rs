//! Little-endian reads of fixed-width fields out of byte buffers.
use vstd::prelude::*;

verus! {

/// Value of the little-endian unsigned integer stored in `s[at .. at + n]`.
pub open spec fn le_value(s: Seq<u8>, at: int, n: nat) -> nat
    decreases n,
{
    if n == 0 {
        0
    } else {
        s[at] as nat + 256 * le_value(s, at + 1, (n - 1) as nat)
    }
}

/// The `u32` stored little-endian at `s[at .. at + 4]`.
pub open spec fn le_u32_at(s: Seq<u8>, at: int) -> u32 {
    le_value(s, at, 4) as u32
}

/// The `u64` stored little-endian at `s[at .. at + 8]`.
pub open spec fn le_u64_at(s: Seq<u8>, at: int) -> u64 {
    le_value(s, at, 8) as u64
}

/// The 32 bytes `s[at .. at + 32]`.
pub open spec fn bytes32_at(s: Seq<u8>, at: int) -> Seq<u8> {
    s.subrange(at, at + 32)
}

proof fn lemma_le_value_bound(s: Seq<u8>, at: int, n: nat)
    ensures
        le_value(s, at, n) < pow256(n),
    decreases n,
{
    if n > 0 {
        lemma_le_value_bound(s, at + 1, (n - 1) as nat);
        assert(pow256(n) == 256 * pow256((n - 1) as nat));
    }
}

/// `256` raised to `n`.
pub open spec fn pow256(n: nat) -> nat
    decreases n,
{
    if n == 0 {
        1
    } else {
        256 * pow256((n - 1) as nat)
    }
}

/// The `n` little-endian bytes of `x`, taken modulo `256^n`.
pub open spec fn le_bytes(x: nat, n: nat) -> Seq<u8>
    decreases n,
{
    if n == 0 {
        seq![]
    } else {
        seq![(x % 256) as u8] + le_bytes(x / 256, (n - 1) as nat)
    }
}

proof fn lemma_pow256_pos(n: nat)
    ensures
        pow256(n) > 0,
    decreases n,
{
    if n > 0 {
        lemma_pow256_pos((n - 1) as nat);
    }
}

pub proof fn lemma_le_bytes_len(x: nat, n: nat)
    ensures
        le_bytes(x, n).len() == n,
    decreases n,
{
    if n > 0 {
        lemma_le_bytes_len(x / 256, (n - 1) as nat);
    }
}

/// Reading back `n` little-endian bytes of `x` gives `x` modulo `256^n`.
pub proof fn lemma_le_roundtrip(s: Seq<u8>, at: int, x: nat, n: nat)
    requires
        0 <= at,
        at + n <= s.len(),
        s.subrange(at, at + n) == le_bytes(x, n),
    ensures
        le_value(s, at, n) == x % pow256(n),
    decreases n,
{
    if n == 0 {
        assert(x % 1 == 0);
    } else {
        lemma_le_bytes_len(x / 256, (n - 1) as nat);
        assert(s[at] == s.subrange(at, at + n)[0]);
        assert(s.subrange(at + 1, at + n) =~= le_bytes(x / 256, (n - 1) as nat)) by {
            assert(le_bytes(x, n) == seq![(x % 256) as u8] + le_bytes(x / 256, (n - 1) as nat));
            assert forall|k: int| 0 <= k < n - 1 implies #[trigger] s.subrange(at + 1, at + n)[k]
                == le_bytes(x / 256, (n - 1) as nat)[k] by {
                assert(s.subrange(at + 1, at + n)[k] == s.subrange(at, at + n)[k + 1]);
            }
        }
        lemma_le_roundtrip(s, at + 1, x / 256, (n - 1) as nat);
        lemma_pow256_pos((n - 1) as nat);
        vstd::arithmetic::div_mod::lemma_mod_breakdown(x as int, 256, pow256((n - 1) as nat) as int);
    }
}

/// Reads the little-endian `u32` at `buf[at .. at + 4]`.
pub fn read_u32_le(buf: &[u8], at: usize) -> (r: u32)
    requires
        at + 4 <= buf@.len(),
    ensures
        r == le_u32_at(buf@, at as int),
{
    let ghost s = buf@;
    proof {
        reveal_with_fuel(le_value, 5);
        lemma_le_value_bound(s, at as int, 4);
        reveal_with_fuel(pow256, 5);
    }
    let b0 = buf[at] as u32;
    let b1 = buf[at + 1] as u32;
    let b2 = buf[at + 2] as u32;
    let b3 = buf[at + 3] as u32;
    b0 + 256 * (b1 + 256 * (b2 + 256 * b3))
}

/// Reads the little-endian `u64` at `buf[at .. at + 8]`.
pub fn read_u64_le(buf: &[u8], at: usize) -> (r: u64)
    requires
        at + 8 <= buf@.len(),
    ensures
        r == le_u64_at(buf@, at as int),
{
    let ghost s = buf@;
    proof {
        reveal_with_fuel(le_value, 9);
        lemma_le_value_bound(s, at as int, 8);
        reveal_with_fuel(pow256, 9);
    }
    let n = buf.len();
    let mut r: u64 = 0;
    let mut k: usize = 8;
    while k > 0
        invariant
            n == buf@.len(),
            0 <= k <= 8,
            at + 8 <= s.len(),
            s == buf@,
            r as nat == le_value(s, at + k, (8 - k) as nat),
            le_value(s, at + k, (8 - k) as nat) < pow256((8 - k) as nat),
        decreases k,
    {
        k = k - 1;
        proof {
            lemma_le_value_bound(s, at + k, (8 - k) as nat);
            assert(le_value(s, at + k, (8 - k) as nat) == s[at + k] as nat + 256 * le_value(s, at + k + 1, (8 - k - 1) as nat));
            assert(pow256((8 - k) as nat) == 256 * pow256((8 - k - 1) as nat));
            lemma_pow256_8();
            lemma_pow256_mono((8 - k) as nat, 8);
        }
        r = buf[at + k] as u64 + 256 * r;
    }
    r
}

pub proof fn lemma_pow256_8()
    ensures
        pow256(8) == 0x1_0000_0000_0000_0000nat,
{
    reveal_with_fuel(pow256, 9);
}

proof fn lemma_pow256_mono(a: nat, b: nat)
    requires
        a <= b,
    ensures
        pow256(a) <= pow256(b),
    decreases b,
{
    if a < b {
        lemma_pow256_mono(a, (b - 1) as nat);
    }
}

/// Copies the `N` bytes at `buf[at .. at + N]`.
pub fn read_array<const N: usize>(buf: &[u8], at: usize) -> (r: [u8; N])
    requires
        at + N <= buf@.len(),
    ensures
        r@ == buf@.subrange(at as int, at + N),
{
    let n = buf.len();
    let mut r = [0u8; N];
    let mut i: usize = 0;
    while i < N
        invariant
            0 <= i <= N,
            n == buf@.len(),
            at + N <= buf@.len(),
            r@.len() == N,
            forall|j: int| 0 <= j < i ==> r@[j] == buf@[at + j],
        decreases N - i,
    {
        r[i] = buf[at + i];
        i = i + 1;
    }
    assert(r@ =~= buf@.subrange(at as int, at + N));
    r
}

/// Copies the 32 bytes at `buf[at .. at + 32]`.
pub fn read_bytes32(buf: &[u8], at: usize) -> (r: [u8; 32])
    requires
        at + 32 <= buf@.len(),
    ensures
        r@ == bytes32_at(buf@, at as int),
{
    read_array::<32>(buf, at)
}

} // verus!
