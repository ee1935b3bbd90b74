//! Exact comparison of products of 64-bit factors, using little-endian
//! vectors of 64-bit limbs.

use vstd::arithmetic::power::*;
use vstd::prelude::*;

verus! {

/// The radix of a limb.
pub open spec fn limb_base() -> int {
    0x1_0000_0000_0000_0000
}

/// The number that little-endian limbs `s` stand for.
pub open spec fn limbs_value(s: Seq<u64>) -> int
    decreases s.len(),
{
    if s.len() == 0 {
        0
    } else {
        limbs_value(s.drop_last()) + pow(limb_base(), (s.len() - 1) as nat) * s.last()
    }
}

/// The product of the factors `s` (1 for no factor).
pub open spec fn product(s: Seq<u64>) -> int
    decreases s.len(),
{
    if s.len() == 0 {
        1
    } else {
        product(s.drop_last()) * s.last()
    }
}

proof fn lemma_pow_positive(e: nat)
    ensures
        pow(limb_base(), e) > 0,
    decreases e,
{
    reveal(pow);
    if e > 0 {
        lemma_pow_positive((e - 1) as nat);
        assert(pow(limb_base(), e) == limb_base() * pow(limb_base(), (e - 1) as nat));
        let p = pow(limb_base(), (e - 1) as nat);
        assert(limb_base() * p > 0) by (nonlinear_arith)
            requires
                p > 0,
        ;
    }
}

proof fn lemma_pow_step(e: nat)
    ensures
        pow(limb_base(), e + 1) == pow(limb_base(), e) * limb_base(),
{
    reveal(pow);
    assert(pow(limb_base(), e + 1) == limb_base() * pow(limb_base(), e));
}

/// Limbs stand for a non-negative number below the next power of the radix.
proof fn lemma_limbs_bound(s: Seq<u64>)
    ensures
        0 <= limbs_value(s) < pow(limb_base(), s.len()),
    decreases s.len(),
{
    reveal(pow);
    if s.len() > 0 {
        let d = s.drop_last();
        lemma_limbs_bound(d);
        lemma_pow_positive(d.len());
        lemma_pow_step(d.len());
        let p = pow(limb_base(), d.len());
        let v = limbs_value(d);
        let x = s.last() as int;
        assert(s.len() - 1 == d.len());
        assert(0 <= v + p * x < p * limb_base()) by (nonlinear_arith)
            requires
                0 <= v < p,
                0 <= x < limb_base(),
        ;
    }
}

/// Splitting limbs at `k`: the low part plus the high part shifted by `k` limbs.
proof fn lemma_limbs_split(s: Seq<u64>, k: int)
    requires
        0 <= k <= s.len(),
    ensures
        limbs_value(s) == limbs_value(s.take(k)) + pow(limb_base(), k as nat) * limbs_value(s.skip(k)),
    decreases s.len(),
{
    if k == s.len() {
        assert(s.take(k) =~= s);
        assert(s.skip(k).len() == 0);
    } else {
        let d = s.drop_last();
        lemma_limbs_split(d, k);
        assert(d.take(k) =~= s.take(k));
        assert(s.skip(k).drop_last() =~= d.skip(k));
        assert(s.skip(k).last() == s.last());
        let hi = s.skip(k);
        assert(limbs_value(hi) == limbs_value(d.skip(k)) + pow(limb_base(), (hi.len() - 1) as nat)
            * s.last());
        lemma_pow_adds(limb_base(), k as nat, (hi.len() - 1) as nat);
        assert(k as nat + (hi.len() - 1) as nat == (s.len() - 1) as nat);
        let pk = pow(limb_base(), k as nat);
        let ph = pow(limb_base(), (hi.len() - 1) as nat);
        let x = s.last() as int;
        let w = limbs_value(d.skip(k));
        assert(pk * (w + ph * x) == pk * w + (pk * ph) * x) by (nonlinear_arith);
    }
}

/// Returns the limbs of `a * m`.
fn mul_small(a: &Vec<u64>, m: u64) -> (r: Vec<u64>)
    ensures
        r@.len() == a@.len() + 1,
        limbs_value(r@) == limbs_value(a@) * m,
{
    let n = a.len();
    let mut r: Vec<u64> = Vec::new();
    let mut carry: u64 = 0;
    for i in 0..n
        invariant
            n == a@.len(),
            r@.len() == i,
            limbs_value(r@) + pow(limb_base(), i as nat) * carry == limbs_value(a@.take(i as int))
                * m,
    {
        let x = a[i];
        assert((x as int) * (m as int) + (carry as int) < 0x1_0000_0000_0000_0000_0000_0000_0000_0000)
            by (nonlinear_arith)
            requires
                x < 0x1_0000_0000_0000_0000,
                m < 0x1_0000_0000_0000_0000,
                carry < 0x1_0000_0000_0000_0000,
        ;
        let t: u128 = (x as u128) * (m as u128) + (carry as u128);
        let low: u64 = (t % 0x1_0000_0000_0000_0000u128) as u64;
        let high: u64 = (t / 0x1_0000_0000_0000_0000u128) as u64;
        proof {
            assert(t == low + limb_base() * high);
            let ghost old_r = r@;
            let p = pow(limb_base(), i as nat);
            lemma_pow_step(i as nat);
            assert(a@.take(i + 1).drop_last() =~= a@.take(i as int));
            assert(a@.take(i + 1).last() == x);
            assert(old_r.push(low).drop_last() =~= old_r);
            assert(limbs_value(old_r.push(low)) == limbs_value(old_r) + p * low);
            let va = limbs_value(a@.take(i as int));
            let vr = limbs_value(old_r);
            assert(vr + p * low + (p * limb_base()) * high == (va + p * x) * m) by (nonlinear_arith)
                requires
                    vr + p * carry == va * m,
                    t == low + limb_base() * high,
                    t == x * m + carry,
            ;
        }
        r.push(low);
        carry = high;
    }
    proof {
        assert(a@.take(n as int) =~= a@);
        assert(r@.push(carry).drop_last() =~= r@);
    }
    r.push(carry);
    r
}

/// Returns the limbs of the product of `factors`; one limb more than factors.
pub fn product_limbs(factors: &Vec<u64>) -> (r: Vec<u64>)
    ensures
        r@.len() == factors@.len() + 1,
        limbs_value(r@) == product(factors@),
{
    let mut r: Vec<u64> = vec![1u64];
    proof {
        assert(r@.len() == 1 && r@.last() == 1);
        assert(r@.drop_last() =~= Seq::<u64>::empty());
        assert(limbs_value(Seq::<u64>::empty()) == 0);
        reveal(pow);
        assert(pow(limb_base(), 0) == 1);
        assert(limbs_value(r@) == limbs_value(r@.drop_last()) + pow(limb_base(), 0) * r@.last());
    }
    let n = factors.len();
    for i in 0..n
        invariant
            n == factors@.len(),
            r@.len() == i + 1,
            limbs_value(r@) == product(factors@.take(i as int)),
    {
        r = mul_small(&r, factors[i]);
        proof {
            assert(factors@.take(i + 1).drop_last() =~= factors@.take(i as int));
        }
    }
    proof {
        assert(factors@.take(n as int) =~= factors@);
    }
    r
}

/// Whether limbs `a` stand for a greater number than limbs `b` of the same length.
pub fn limbs_gt(a: &Vec<u64>, b: &Vec<u64>) -> (r: bool)
    requires
        a@.len() == b@.len(),
    ensures
        r == (limbs_value(a@) > limbs_value(b@)),
{
    let n = a.len();
    let mut i: usize = n;
    while i > 0
        invariant
            n == a@.len(),
            n == b@.len(),
            i <= n,
            forall|u: int| i <= u < n ==> a@[u] == b@[u],
        decreases i,
    {
        let d = i - 1;
        if a[d] != b[d] {
            proof {
                lemma_limbs_split(a@, d + 1);
                lemma_limbs_split(b@, d + 1);
                assert(a@.skip(d + 1) =~= b@.skip(d + 1));
                let la = a@.take(d + 1);
                let lb = b@.take(d + 1);
                assert(la.drop_last() =~= a@.take(d as int));
                assert(lb.drop_last() =~= b@.take(d as int));
                lemma_limbs_bound(a@.take(d as int));
                lemma_limbs_bound(b@.take(d as int));
                let p = pow(limb_base(), d as nat);
                lemma_pow_positive(d as nat);
                let xa = a@[d as int] as int;
                let xb = b@[d as int] as int;
                let va = limbs_value(a@.take(d as int));
                let vb = limbs_value(b@.take(d as int));
                assert(limbs_value(la) == va + p * xa);
                assert(limbs_value(lb) == vb + p * xb);
                if xa > xb {
                    assert(va + p * xa > vb + p * xb) by (nonlinear_arith)
                        requires
                            xa >= xb + 1,
                            p > 0,
                            0 <= va,
                            vb < p,
                    ;
                } else {
                    assert(vb + p * xb > va + p * xa) by (nonlinear_arith)
                        requires
                            xb >= xa + 1,
                            p > 0,
                            0 <= vb,
                            va < p,
                    ;
                }
            }
            return a[d] > b[d];
        }
        i = d;
    }
    proof {
        assert(a@ =~= b@);
    }
    false
}

} // verus!
