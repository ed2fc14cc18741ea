//! Unsigned integers of any size, as little-endian vectors of 32-bit limbs,
//! with the few operations that the exact consensus mean needs.

use vstd::prelude::*;

verus! {

/// 2^(32 k): the place value of limb `k`.
pub open spec fn pow32(k: nat) -> nat
    decreases k,
{
    if k == 0 {
        1
    } else {
        pow32((k - 1) as nat) * 4_294_967_296
    }
}

/// Limb `i` of `s`, or zero past its end.
pub open spec fn limb(s: Seq<u32>, i: int) -> nat {
    if 0 <= i < s.len() {
        s[i] as nat
    } else {
        0
    }
}

/// The value of the lowest `k` limbs of `s`.
pub open spec fn valn(s: Seq<u32>, k: nat) -> nat
    decreases k,
{
    if k == 0 {
        0
    } else {
        valn(s, (k - 1) as nat) + limb(s, k - 1) * pow32((k - 1) as nat)
    }
}

/// The value of `s`.
pub open spec fn val(s: Seq<u32>) -> nat {
    valn(s, s.len())
}

proof fn lemma_pow32_positive(k: nat)
    ensures
        pow32(k) >= 1,
    decreases k,
{
    if k > 0 {
        lemma_pow32_positive((k - 1) as nat);
        assert(pow32((k - 1) as nat) * 4_294_967_296 >= 1) by (nonlinear_arith)
            requires
                pow32((k - 1) as nat) >= 1,
        ;
    }
}

proof fn lemma_valn_bound(s: Seq<u32>, k: nat)
    ensures
        valn(s, k) < pow32(k),
    decreases k,
{
    if k > 0 {
        let j = (k - 1) as nat;
        lemma_valn_bound(s, j);
        let p = pow32(j);
        let l = limb(s, j as int);
        assert(l <= 4_294_967_295);
        assert(valn(s, j) + l * p < p * 4_294_967_296) by (nonlinear_arith)
            requires
                valn(s, j) < p,
                l <= 4_294_967_295,
        ;
    }
}

proof fn lemma_valn_beyond(s: Seq<u32>, k: nat)
    requires
        k >= s.len(),
    ensures
        valn(s, k) == val(s),
    decreases k,
{
    if k > s.len() {
        lemma_valn_beyond(s, (k - 1) as nat);
    }
}

proof fn lemma_valn_prefix(s1: Seq<u32>, s2: Seq<u32>, k: nat)
    requires
        forall|j: int| 0 <= j < k ==> limb(s1, j) == limb(s2, j),
    ensures
        valn(s1, k) == valn(s2, k),
    decreases k,
{
    if k > 0 {
        lemma_valn_prefix(s1, s2, (k - 1) as nat);
        assert(limb(s1, k - 1) == limb(s2, k - 1));
    }
}

proof fn lemma_valn_push(s: Seq<u32>, x: u32)
    ensures
        valn(s.push(x), (s.len() + 1) as nat) == val(s) + x * pow32(s.len()),
{
    let t = s.push(x);
    assert forall|j: int| 0 <= j < s.len() implies limb(t, j) == limb(s, j) by {}
    lemma_valn_prefix(t, s, s.len());
    assert(limb(t, s.len() as int) == x);
}

/// The number one.
pub fn one() -> (r: Vec<u32>)
    ensures
        val(r@) == 1,
{
    let mut r: Vec<u32> = Vec::new();
    r.push(1);
    proof {
        lemma_valn_push(Seq::<u32>::empty(), 1);
    }
    r
}

/// The number zero.
pub fn zero() -> (r: Vec<u32>)
    ensures
        val(r@) == 0,
{
    Vec::new()
}

/// `a * b`.
pub fn mul_small(a: &Vec<u32>, b: u64) -> (r: Vec<u32>)
    ensures
        val(r@) == val(a@) * b,
{
    let mut r: Vec<u32> = Vec::new();
    let mut carry: u128 = 0;
    let mut i: usize = 0;
    proof {
        assert(valn(a@, 0) == 0);
        assert(valn(r@, 0) == 0);
        assert(0 * b == 0);
    }
    while i < a.len()
        invariant
            0 <= i <= a.len(),
            r.len() == i,
            carry < 0x1_0000_0000_0000_0000u128,
            valn(r@, i as nat) + carry * pow32(i as nat) == valn(a@, i as nat) * b,
        decreases a.len() - i,
    {
        let ai: u32 = a[i];
        assert((ai as u128) * (b as u128) <= 0xffff_ffffu128 * 0xffff_ffff_ffff_ffffu128)
            by (nonlinear_arith)
            requires
                ai <= 0xffff_ffffu128,
                b <= 0xffff_ffff_ffff_ffffu128,
        ;
        let t: u128 = ai as u128 * b as u128 + carry;
        let lo: u32 = (t % 0x1_0000_0000) as u32;
        let next: u128 = t / 0x1_0000_0000;
        proof {
            let p = pow32(i as nat);
            lemma_valn_push(r@, lo);
            assert(limb(a@, i as int) == ai);
            assert(pow32((i + 1) as nat) == p * 4_294_967_296);
            assert(t == lo + next * 4_294_967_296);
            assert(valn(r@, i as nat) + lo * p + next * (p * 4_294_967_296) == valn(a@, i as nat)
                * b + ai * p * b) by (nonlinear_arith)
                requires
                    valn(r@, i as nat) + carry * p == valn(a@, i as nat) * b,
                    t == lo + next * 4_294_967_296,
                    t == ai * b + carry,
            ;
            assert(valn(a@, (i + 1) as nat) == valn(a@, i as nat) + ai * p);
            assert((valn(a@, i as nat) + ai * p) * b == valn(a@, i as nat) * b + ai * p * b)
                by (nonlinear_arith);
        }
        r.push(lo);
        carry = next;
        i = i + 1;
    }
    let c0: u32 = (carry % 0x1_0000_0000) as u32;
    let c1: u32 = (carry / 0x1_0000_0000) as u32;
    proof {
        let n = a.len() as nat;
        let p = pow32(n);
        lemma_valn_push(r@, c0);
        lemma_valn_push(r@.push(c0), c1);
        assert(pow32(n + 1) == p * 4_294_967_296);
        assert(val(a@) == valn(a@, n));
        assert(valn(r@, n) + c0 * p + c1 * (p * 4_294_967_296) == valn(r@, n) + carry * p)
            by (nonlinear_arith)
            requires
                carry == c0 + c1 * 4_294_967_296,
        ;
    }
    r.push(c0);
    r.push(c1);
    r
}

/// `a + b`.
pub fn plus(a: &Vec<u32>, b: &Vec<u32>) -> (r: Vec<u32>)
    ensures
        val(r@) == val(a@) + val(b@),
{
    let n: usize = if a.len() >= b.len() {
        a.len()
    } else {
        b.len()
    };
    let mut r: Vec<u32> = Vec::new();
    let mut carry: u64 = 0;
    let mut i: usize = 0;
    while i < n
        invariant
            0 <= i <= n,
            n >= a.len(),
            n >= b.len(),
            r.len() == i,
            carry <= 1,
            valn(r@, i as nat) + carry * pow32(i as nat) == valn(a@, i as nat) + valn(b@, i as nat),
        decreases n - i,
    {
        let x: u64 = if i < a.len() {
            a[i] as u64
        } else {
            0
        };
        let y: u64 = if i < b.len() {
            b[i] as u64
        } else {
            0
        };
        let t: u64 = x + y + carry;
        let lo: u32 = (t % 0x1_0000_0000) as u32;
        let next: u64 = t / 0x1_0000_0000;
        proof {
            let p = pow32(i as nat);
            lemma_valn_push(r@, lo);
            assert(limb(a@, i as int) == x);
            assert(limb(b@, i as int) == y);
            assert(pow32((i + 1) as nat) == p * 4_294_967_296);
            assert(valn(r@, i as nat) + lo * p + next * (p * 4_294_967_296) == valn(a@, i as nat)
                + valn(b@, i as nat) + x * p + y * p) by (nonlinear_arith)
                requires
                    valn(r@, i as nat) + carry * p == valn(a@, i as nat) + valn(b@, i as nat),
                    t == lo + next * 4_294_967_296,
                    t == x + y + carry,
            ;
        }
        r.push(lo);
        carry = next;
        i = i + 1;
    }
    let c: u32 = carry as u32;
    proof {
        lemma_valn_push(r@, c);
        lemma_valn_beyond(a@, n as nat);
        lemma_valn_beyond(b@, n as nat);
    }
    r.push(c);
    r
}

/// Whether `a <= b`.
pub fn le(a: &Vec<u32>, b: &Vec<u32>) -> (r: bool)
    ensures
        r == (val(a@) <= val(b@)),
{
    let n: usize = if a.len() >= b.len() {
        a.len()
    } else {
        b.len()
    };
    let mut borrow: u64 = 0;
    let ghost mut d: int = 0;
    let mut i: usize = 0;
    while i < n
        invariant
            0 <= i <= n,
            n >= a.len(),
            n >= b.len(),
            borrow <= 1,
            0 <= d < pow32(i as nat),
            valn(b@, i as nat) - valn(a@, i as nat) == d - borrow * pow32(i as nat),
        decreases n - i,
    {
        let x: u64 = if i < a.len() {
            a[i] as u64
        } else {
            0
        };
        let y: u64 = if i < b.len() {
            b[i] as u64
        } else {
            0
        };
        let ghost p = pow32(i as nat);
        proof {
            assert(limb(a@, i as int) == x);
            assert(limb(b@, i as int) == y);
            assert(pow32((i + 1) as nat) == p * 4_294_967_296);
        }
        if y >= x + borrow {
            let digit: u64 = y - x - borrow;
            proof {
                assert(d + digit * p < p * 4_294_967_296) by (nonlinear_arith)
                    requires
                        d < p,
                        digit <= 4_294_967_295,
                ;
                assert(valn(b@, i as nat) + y * p - valn(a@, i as nat) - x * p == d + digit * p)
                    by (nonlinear_arith)
                    requires
                        valn(b@, i as nat) - valn(a@, i as nat) == d - borrow * p,
                        digit == y - x - borrow,
                ;
                d = d + digit * p;
            }
            borrow = 0;
        } else {
            let digit: u64 = y + 0x1_0000_0000 - x - borrow;
            proof {
                assert(d + digit * p < p * 4_294_967_296) by (nonlinear_arith)
                    requires
                        d < p,
                        digit <= 4_294_967_295,
                ;
                assert(valn(b@, i as nat) + y * p - valn(a@, i as nat) - x * p == d + digit * p
                    - p * 4_294_967_296) by (nonlinear_arith)
                    requires
                        valn(b@, i as nat) - valn(a@, i as nat) == d - borrow * p,
                        digit == y + 4_294_967_296 - x - borrow,
                ;
                d = d + digit * p;
            }
            borrow = 1;
        }
        i = i + 1;
    }
    proof {
        lemma_valn_beyond(a@, n as nat);
        lemma_valn_beyond(b@, n as nat);
    }
    borrow == 0
}

} // verus!
