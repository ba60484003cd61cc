//! Numeric helpers of the runner: token estimates, the scenario-file
//! fingerprint (SHA-256), latency sorting and percentiles.

use vstd::prelude::*;
use vstd::arithmetic::power2::{pow2, lemma_pow2_unfold, lemma_pow2_pos};
use crate::text::{hex_digits, push_hex};

verus! {

/// The number of low bits a 32-bit float drops when it holds `n`:
/// single precision keeps 24 significant bits.
pub open spec fn f32_dropped_bits(n: nat) -> nat
    decreases n,
{
    if n < 0x100_0000 {
        0
    } else {
        1 + f32_dropped_bits(n / 2)
    }
}

/// `n` rounded to the nearest single-precision float, ties to even: the
/// value `n as f32` holds for an integer `n`.
pub open spec fn f32_round(n: nat) -> nat {
    let u = pow2(f32_dropped_bits(n));
    let q = n / u;
    let r = n % u;
    if 2 * r > u || (2 * r == u && q % 2 == 1) {
        (q + 1) * u
    } else {
        q * u
    }
}

/// The token estimate for `chars` bytes: a quarter of the byte count as a
/// 32-bit float, rounded up, saturated to `u32`, and at least 1.
pub open spec fn approx_tokens_spec(chars: nat) -> nat {
    let v = f32_round(chars);
    let c = (v + 3) / 4;
    let t = if c > u32::MAX { u32::MAX as nat } else { c };
    if t < 1 { 1 } else { t }
}

proof fn lemma_dropped_bits_step(m: nat)
    requires
        m >= 0x100_0000,
    ensures
        f32_dropped_bits(m) == 1 + f32_dropped_bits(m / 2),
{
}

/// Estimated number of tokens in an identifier of `chars` bytes.
pub fn approx_tokens(chars: usize) -> (t: u32)
    ensures
        t as nat == approx_tokens_spec(chars as nat),
        t >= 1,
{
    let n: u128 = chars as u128;
    let mut m: u128 = n;
    let mut u: u128 = 1;
    let mut r: u128 = 0;
    let ghost mut k: nat = 0;
    proof {
        vstd::arithmetic::power2::lemma2_to64();
    }
    while m >= 0x100_0000
        invariant
            n == chars as u128,
            n == m * u + r,
            r < u,
            u == pow2(k),
            n < 0x1_0000_0000_0000_0000,
            m <= n,
            u <= n + 1,
            f32_dropped_bits(n as nat) == k + f32_dropped_bits(m as nat),
        decreases m,
    {
        proof {
            lemma_dropped_bits_step(m as nat);
            lemma_pow2_unfold(k + 1);
            assert(m == 2 * (m / 2) + m % 2);
            assert(n == (m / 2) * (2 * u) + (r + (m % 2) * u)) by (nonlinear_arith)
                requires
                    n == m * u + r,
                    m == 2 * (m / 2) + m % 2,
            ;
            assert((m % 2) * u <= u) by (nonlinear_arith)
                requires
                    m % 2 <= 1,
            ;
            assert(2 * u <= n + 1) by (nonlinear_arith)
                requires
                    n == m * u + r,
                    m >= 0x100_0000,
                    u >= 1,
            ;
        }
        r = r + (m % 2) * u;
        m = m / 2;
        u = 2 * u;
        proof {
            k = k + 1;
        }
    }
    proof {
        lemma_pow2_pos(k);
        vstd::arithmetic::div_mod::lemma_fundamental_div_mod_converse(
            n as int,
            u as int,
            m as int,
            r as int,
        );
    }
    let q = m;
    proof {
        assert((q + 1) * u <= 0x100_0000 * 0x1_0000_0000_0000_0001) by (nonlinear_arith)
            requires
                q < 0x100_0000,
                u <= 0x1_0000_0000_0000_0001,
        ;
        assert((q + 1) * u <= 2 * n + 2) by (nonlinear_arith)
            requires
                n == q * u + r,
                r < u,
                u <= n + 1,
        ;
    }
    let v: u128 = if 2 * r > u || (2 * r == u && q % 2 == 1) {
        (q + 1) * u
    } else {
        q * u
    };
    let c: u128 = (v + 3) / 4;
    let t: u32 = if c > 0xffff_ffff { 0xffff_ffff } else { c as u32 };
    if t < 1 {
        1
    } else {
        t
    }
}


/// Name for the SHA-256 digest of `bytes`, as `sha2::Sha256` computes it.
pub uninterp spec fn sha256_digest(bytes: Seq<u8>) -> Seq<u8>;

/// `sha2::Sha256::digest`: the SHA-256 digest of `bytes`, which is 32 bytes long.
#[verifier::external_body]
fn digest_sha256(bytes: &[u8]) -> (d: Vec<u8>)
    ensures
        d@ == sha256_digest(bytes@),
        d@.len() == 32,
{
    <sha2::Sha256 as sha2::Digest>::digest(bytes).to_vec()
}

/// `bytes` written as lowercase hexadecimal, two digits per byte.
pub open spec fn bytes_hex(bytes: Seq<u8>) -> Seq<char>
    decreases bytes.len(),
{
    if bytes.len() == 0 {
        Seq::empty()
    } else {
        bytes_hex(bytes.drop_last()) + hex_digits(bytes.last() as nat, 2)
    }
}

proof fn lemma_hex_digits_len(n: nat, w: nat)
    ensures
        hex_digits(n, w).len() == w,
    decreases w,
{
    if w > 0 {
        lemma_hex_digits_len(n / 16, (w - 1) as nat);
    }
}

proof fn lemma_bytes_hex_len(bytes: Seq<u8>)
    ensures
        bytes_hex(bytes).len() == 2 * bytes.len(),
    decreases bytes.len(),
{
    if bytes.len() > 0 {
        lemma_bytes_hex_len(bytes.drop_last());
        lemma_hex_digits_len(bytes.last() as nat, 2);
    }
}

/// `bytes` as lowercase hexadecimal, two digits per byte.
pub fn hex_of_bytes(bytes: &[u8]) -> (s: String)
    ensures
        s@ == bytes_hex(bytes@),
        s@.len() == 2 * bytes@.len(),
{
    let mut s = String::new();
    let mut i: usize = 0;
    while i < bytes.len()
        invariant
            i <= bytes@.len(),
            s@ == bytes_hex(bytes@.take(i as int)),
        decreases bytes@.len() - i,
    {
        proof {
            assert(bytes@.take(i + 1).drop_last() =~= bytes@.take(i as int));
        }
        push_hex(&mut s, bytes[i] as u64, 2);
        i = i + 1;
    }
    proof {
        assert(bytes@.take(bytes@.len() as int) =~= bytes@);
        lemma_bytes_hex_len(bytes@);
    }
    s
}

/// Fingerprint of a scenario file: the SHA-256 digest of its bytes, as 64
/// lowercase hexadecimal digits.
pub fn sha256(bytes: &[u8]) -> (s: String)
    ensures
        s@ == bytes_hex(sha256_digest(bytes@)),
        s@.len() == 64,
{
    let d = digest_sha256(bytes);
    hex_of_bytes(d.as_slice())
}

/// Whether `s` is in non-decreasing order.
pub open spec fn is_sorted(s: Seq<u64>) -> bool {
    forall|i: int, j: int| 0 <= i <= j < s.len() ==> s[i] <= s[j]
}

/// `s` rearranged into non-decreasing order.
pub open spec fn sorted_u64(s: Seq<u64>) -> Seq<u64> {
    s.sort_by(|a: u64, b: u64| a <= b)
}

proof fn lemma_sorted_u64(s: Seq<u64>)
    ensures
        is_sorted(sorted_u64(s)),
        sorted_u64(s).to_multiset() == s.to_multiset(),
{
    let leq = |a: u64, b: u64| a <= b;
    assert(vstd::relations::total_ordering(leq));
    s.lemma_sort_by_ensures(leq);
    let t = sorted_u64(s);
    assert forall|i: int, j: int| 0 <= i <= j < t.len() implies t[i] <= t[j] by {
        if i < j {
            assert(leq(t[i], t[j]));
        }
    }
}

/// Two sorted sequences holding the same values are equal: the sorted
/// order of a collection is unique.
pub proof fn law_sorted_order_unique(a: Seq<u64>, b: Seq<u64>)
    requires
        is_sorted(a),
        is_sorted(b),
        a.to_multiset() == b.to_multiset(),
    ensures
        a == b,
    decreases a.len(),
{
    a.to_multiset_ensures();
    b.to_multiset_ensures();
    if a.len() == 0 {
        assert(a =~= b);
    } else {
        assert(b.len() == a.len());
        assert(a.to_multiset().count(b[0]) > 0);
        assert(b.to_multiset().count(a[0]) > 0);
        assert(a.contains(b[0]));
        assert(b.contains(a[0]));
        let ia = choose|k: int| 0 <= k < a.len() && a[k] == b[0];
        let ib = choose|k: int| 0 <= k < b.len() && b[k] == a[0];
        assert(a[0] <= a[ia]);
        assert(b[0] <= b[ib]);
        assert(a[0] == b[0]);
        assert(a.remove(0) =~= a.drop_first());
        assert(b.remove(0) =~= b.drop_first());
        law_sorted_order_unique(a.drop_first(), b.drop_first());
        assert forall|k: int| 0 <= k < a.len() implies a[k] == b[k] by {
            if k > 0 {
                assert(a[k] == a.drop_first()[k - 1]);
                assert(b[k] == b.drop_first()[k - 1]);
            }
        }
        assert(a =~= b);
    }
}

/// The values of `v` in non-decreasing order.
pub fn sorted_copy(v: &[u64]) -> (r: Vec<u64>)
    ensures
        is_sorted(r@),
        r@.to_multiset() == v@.to_multiset(),
        r@ == sorted_u64(v@),
{
    let mut r: Vec<u64> = Vec::new();
    let mut i: usize = 0;
    proof {
        assert(v@.take(0) =~= r@);
    }
    while i < v.len()
        invariant
            i <= v@.len(),
            r@.len() == i,
            is_sorted(r@),
            r@.to_multiset() == v@.take(i as int).to_multiset(),
        decreases v@.len() - i,
    {
        let x = v[i];
        let mut p: usize = 0;
        while p < r.len() && r[p] <= x
            invariant
                p <= r@.len(),
                forall|j: int| 0 <= j < p ==> r@[j] <= x,
            decreases r@.len() - p,
        {
            p = p + 1;
        }
        let ghost before = r@;
        r.insert(p, x);
        proof {
            assert(r@ == before.insert(p as int, x));
            assert(r@.remove(p as int) =~= before);
            assert(r@[p as int] == x);
            r@.to_multiset_ensures();
            before.to_multiset_ensures();
            v@.take(i as int).to_multiset_ensures();
            assert(r@.remove(p as int).to_multiset() =~= r@.to_multiset().remove(x));
            assert(r@.to_multiset().count(x) > 0);
            assert(r@.to_multiset() =~= before.to_multiset().insert(x));
            assert(v@.take(i + 1) =~= v@.take(i as int).push(x));
            assert forall|a: int, b: int| 0 <= a <= b < r@.len() implies r@[a] <= r@[b] by {
                if b < p {
                } else if a > p {
                } else if a == p && b == p {
                } else if a == p {
                    assert(r@[b] == before[b - 1]);
                    assert(p < before.len());
                    assert(before[p as int] > x);
                } else {
                    assert(r@[a] == before[a]);
                }
            }
        }
        i = i + 1;
    }
    proof {
        assert(v@.take(v@.len() as int) =~= v@);
        lemma_sorted_u64(v@);
        law_sorted_order_unique(r@, sorted_u64(v@));
    }
    r
}

/// The rank used for quantile `q_num / q_den` of a population of `len`:
/// `ceil(len * q)`, less one, kept within `0 .. len - 1`.
pub open spec fn percentile_index(len: nat, q_num: nat, q_den: nat) -> int {
    let c = (len * q_num + q_den - 1) / q_den as int;
    let i = if c >= 1 { c - 1 } else { 0 };
    if i < len - 1 { i } else { len - 1 }
}

/// The value at quantile `q_num / q_den` of the sorted population
/// `sorted` (0 for an empty population).
pub open spec fn percentile_spec(sorted: Seq<u64>, q_num: nat, q_den: nat) -> u64 {
    if sorted.len() == 0 {
        0
    } else {
        sorted[percentile_index(sorted.len(), q_num, q_den)]
    }
}

/// The quantile `q_num / q_den` of the sorted latencies `sorted`.
pub fn percentile(sorted: &[u64], q_num: u64, q_den: u64) -> (r: u64)
    requires
        q_den > 0,
    ensures
        r == percentile_spec(sorted@, q_num as nat, q_den as nat),
{
    if sorted.len() == 0 {
        return 0;
    }
    let len = sorted.len() as u128;
    proof {
        assert(len * (q_num as u128) <= 0xffff_ffff_ffff_ffff * 0xffff_ffff_ffff_ffff) by (nonlinear_arith)
            requires
                len <= 0xffff_ffff_ffff_ffff,
                q_num <= 0xffff_ffff_ffff_ffff,
        ;
    }
    let c: u128 = (len * (q_num as u128) + (q_den as u128) - 1) / (q_den as u128);
    let i: u128 = if c >= 1 { c - 1 } else { 0 };
    let idx: u128 = if i < len - 1 { i } else { len - 1 };
    sorted[idx as usize]
}

/// Quantiles of a sorted population grow with the quantile: a higher
/// quantile never reports a lower value.
pub proof fn law_percentile_monotone(sorted: Seq<u64>, q1: nat, q2: nat, d: nat)
    requires
        is_sorted(sorted),
        d > 0,
        q1 <= q2,
    ensures
        percentile_spec(sorted, q1, d) <= percentile_spec(sorted, q2, d),
{
    if sorted.len() > 0 {
        let len = sorted.len();
        assert(len * q1 <= len * q2) by (nonlinear_arith)
            requires
                q1 <= q2,
        ;
        vstd::arithmetic::div_mod::lemma_div_is_ordered(
            (len * q1 + d - 1) as int,
            (len * q2 + d - 1) as int,
            d as int,
        );
    }
}

/// A quantile of a non-empty population is one of its values.
pub proof fn law_percentile_is_member(sorted: Seq<u64>, q: nat, d: nat)
    requires
        sorted.len() > 0,
        d > 0,
    ensures
        sorted.contains(percentile_spec(sorted, q, d)),
{
    let i = percentile_index(sorted.len(), q, d);
    assert(0 <= (sorted.len() * q + d - 1) / d as int) by {
        vstd::arithmetic::div_mod::lemma_div_pos_is_pos((sorted.len() * q + d - 1) as int, d as int);
    }
    assert(0 <= i < sorted.len());
    assert(sorted[i] == percentile_spec(sorted, q, d));
}

} // verus!
