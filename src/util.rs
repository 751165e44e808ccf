//! Vectors and low-degree polynomials over the scalar field.
use crate::scalar::{fadd, fmul, fpow, fsub, scalar_values, Scalar};
use crate::scalar::group_order;
use vstd::arithmetic::div_mod::{
    lemma_add_mod_noop, lemma_mod_twice, lemma_mul_mod_noop, lemma_sub_mod_noop,
};
use vstd::prelude::*;

verus! {

/// `sum_{i < k} a[i] * b[i]` in the field.
pub open spec fn inner_product_spec(a: Seq<int>, b: Seq<int>, k: nat) -> int
    decreases k,
{
    if k == 0 {
        0
    } else {
        fadd(inner_product_spec(a, b, (k - 1) as nat), fmul(a[k - 1], b[k - 1]))
    }
}

/// `sum_{i < n} x^i` in the field.
pub open spec fn sum_of_powers_spec(x: int, n: nat) -> int
    decreases n,
{
    if n == 0 {
        0
    } else {
        fadd(sum_of_powers_spec(x, (n - 1) as nat), fpow(x, (n - 1) as nat))
    }
}

/// The inner product of two scalar vectors of the same length.
pub fn inner_product(a: &[Scalar], b: &[Scalar]) -> (r: Scalar)
    requires
        a@.len() == b@.len(),
    ensures
        r@ == inner_product_spec(scalar_values(a@), scalar_values(b@), a@.len() as nat),
{
    let mut acc = Scalar::zero();
    let mut i: usize = 0;
    while i < a.len()
        invariant
            0 <= i <= a@.len(),
            a@.len() == b@.len(),
            acc@ == inner_product_spec(scalar_values(a@), scalar_values(b@), i as nat),
        decreases a@.len() - i,
    {
        let p = a[i].mul(&b[i]);
        acc = acc.add(&p);
        i = i + 1;
    }
    acc
}

/// The elementwise sum of two scalar vectors of the same length.
pub fn add_vec(a: &[Scalar], b: &[Scalar]) -> (r: Vec<Scalar>)
    requires
        a@.len() == b@.len(),
    ensures
        r@.len() == a@.len(),
        forall|i: int| 0 <= i < a@.len() ==> (#[trigger] r@[i])@ == fadd(a@[i]@, b@[i]@),
{
    let mut out: Vec<Scalar> = Vec::new();
    let mut i: usize = 0;
    while i < a.len()
        invariant
            0 <= i <= a@.len(),
            a@.len() == b@.len(),
            out@.len() == i,
            forall|k: int| 0 <= k < i ==> (#[trigger] out@[k])@ == fadd(a@[k]@, b@[k]@),
        decreases a@.len() - i,
    {
        out.push(a[i].add(&b[i]));
        i = i + 1;
    }
    out
}

/// The first `n` powers of `x`: `1, x, x^2, ...`.
pub fn powers(x: &Scalar, n: usize) -> (r: Vec<Scalar>)
    ensures
        r@.len() == n,
        forall|i: int| 0 <= i < n ==> (#[trigger] r@[i])@ == fpow(x@, i as nat),
{
    let mut out: Vec<Scalar> = Vec::new();
    let mut cur = Scalar::one();
    let mut i: usize = 0;
    while i < n
        invariant
            0 <= i <= n,
            out@.len() == i,
            cur@ == fpow(x@, i as nat),
            forall|k: int| 0 <= k < i ==> (#[trigger] out@[k])@ == fpow(x@, k as nat),
        decreases n - i,
    {
        out.push(cur);
        cur = cur.mul(x);
        i = i + 1;
    }
    out
}

/// `x^e`, by repeated multiplication; the time depends on `e`.
pub fn scalar_exp_vartime(x: &Scalar, e: u64) -> (r: Scalar)
    ensures
        r@ == fpow(x@, e as nat),
{
    let mut cur = Scalar::one();
    let mut i: u64 = 0;
    while i < e
        invariant
            0 <= i <= e,
            cur@ == fpow(x@, i as nat),
        decreases e - i,
    {
        cur = cur.mul(x);
        i = i + 1;
    }
    cur
}

/// `sum_{i < n} x^i`.
pub fn sum_of_powers(x: &Scalar, n: usize) -> (r: Scalar)
    ensures
        r@ == sum_of_powers_spec(x@, n as nat),
{
    let mut acc = Scalar::zero();
    let mut cur = Scalar::one();
    let mut i: usize = 0;
    while i < n
        invariant
            0 <= i <= n,
            cur@ == fpow(x@, i as nat),
            acc@ == sum_of_powers_spec(x@, i as nat),
        decreases n - i,
    {
        acc = acc.add(&cur);
        cur = cur.mul(x);
        i = i + 1;
    }
    acc
}

/// A polynomial of degree at most two with scalar coefficients: `t.0 + t.1 X + t.2 X^2`.
pub struct Poly2(pub Scalar, pub Scalar, pub Scalar);

/// `t0 + x (t1 + x t2)` in the field.
pub open spec fn poly2_eval_spec(t0: int, t1: int, t2: int, x: int) -> int {
    fadd(t0, fmul(x, fadd(t1, fmul(x, t2))))
}

impl Poly2 {
    /// The polynomial's value at `x`.
    pub fn eval(&self, x: &Scalar) -> (r: Scalar)
        ensures
            r@ == poly2_eval_spec(self.0@, self.1@, self.2@, x@),
    {
        let a = x.mul(&self.2);
        let b = self.1.add(&a);
        let c = x.mul(&b);
        self.0.add(&c)
    }
}

/// A vector polynomial of degree at most one: `v.0 + v.1 X`, both of one length.
pub struct VecPoly1(pub Vec<Scalar>, pub Vec<Scalar>);

/// The middle coefficient of `<a0 + a1 X, b0 + b1 X>`: `<a0, b1> + <a1, b0>`.
pub open spec fn middle_coeff(a0: Seq<int>, a1: Seq<int>, b0: Seq<int>, b1: Seq<int>) -> int {
    let n = a0.len();
    fadd(inner_product_spec(a0, b1, n), inner_product_spec(a1, b0, n))
}

/// `sum_{i < k} a[i] b[i]` over the integers.
pub open spec fn raw_ip(a: Seq<int>, b: Seq<int>, k: nat) -> int
    decreases k,
{
    if k == 0 {
        0
    } else {
        raw_ip(a, b, (k - 1) as nat) + a[k - 1] * b[k - 1]
    }
}

/// The field inner product is the integer one reduced.
proof fn lemma_ip_raw(a: Seq<int>, b: Seq<int>, k: nat)
    ensures
        inner_product_spec(a, b, k) == raw_ip(a, b, k) % group_order(),
    decreases k,
{
    if k > 0 {
        lemma_ip_raw(a, b, (k - 1) as nat);
        lemma_add_mod_noop(
            raw_ip(a, b, (k - 1) as nat),
            a[k - 1] * b[k - 1],
            group_order(),
        );
    }
}

/// The inner product of the sums splits into the four cross products, modulo the group order.
proof fn lemma_ip_sums(a0: Seq<int>, a1: Seq<int>, b0: Seq<int>, b1: Seq<int>, k: nat)
    requires
        k <= a0.len(),
        a1.len() == a0.len(),
        b0.len() == a0.len(),
        b1.len() == a0.len(),
    ensures
        ({
            let n = a0.len();
            let sa = Seq::new(n, |i: int| fadd(a0[i], a1[i]));
            let sb = Seq::new(n, |i: int| fadd(b0[i], b1[i]));
            raw_ip(sa, sb, k) % group_order() == (raw_ip(a0, b0, k) + raw_ip(a0, b1, k) + raw_ip(
                a1,
                b0,
                k,
            ) + raw_ip(a1, b1, k)) % group_order()
        }),
    decreases k,
{
    let L = group_order();
    if k > 0 {
        let j = (k - 1) as nat;
        lemma_ip_sums(a0, a1, b0, b1, j);
        let n = a0.len();
        let sa = Seq::new(n, |i: int| fadd(a0[i], a1[i]));
        let sb = Seq::new(n, |i: int| fadd(b0[i], b1[i]));
        let x = a0[j as int] + a1[j as int];
        let y = b0[j as int] + b1[j as int];
        let rp = raw_ip(sa, sb, j);
        let sp = raw_ip(a0, b0, j) + raw_ip(a0, b1, j) + raw_ip(a1, b0, j) + raw_ip(a1, b1, j);
        lemma_mul_mod_noop(x, y, L);
        lemma_add_mod_noop(rp, sa[j as int] * sb[j as int], L);
        lemma_add_mod_noop(sp, x * y, L);
        let (p, q, u, v) = (a0[j as int], a1[j as int], b0[j as int], b1[j as int]);
        assert(x * y == p * u + p * v + q * u + q * v) by (nonlinear_arith)
            requires
                x == p + q,
                y == u + v,
        ;
    }
}

/// Karatsuba's middle coefficient `<a0 + a1, b0 + b1> - <a0, b0> - <a1, b1>` is
/// `<a0, b1> + <a1, b0>`.
pub proof fn lemma_karatsuba(a0: Seq<int>, a1: Seq<int>, b0: Seq<int>, b1: Seq<int>)
    requires
        a1.len() == a0.len(),
        b0.len() == a0.len(),
        b1.len() == a0.len(),
    ensures
        ({
            let n = a0.len();
            let sa = Seq::new(n, |i: int| fadd(a0[i], a1[i]));
            let sb = Seq::new(n, |i: int| fadd(b0[i], b1[i]));
            fsub(
                fsub(inner_product_spec(sa, sb, n), inner_product_spec(a0, b0, n)),
                inner_product_spec(a1, b1, n),
            ) == middle_coeff(a0, a1, b0, b1)
        }),
{
    let L = group_order();
    let n = a0.len();
    let sa = Seq::new(n, |i: int| fadd(a0[i], a1[i]));
    let sb = Seq::new(n, |i: int| fadd(b0[i], b1[i]));
    lemma_ip_raw(sa, sb, n);
    lemma_ip_raw(a0, b0, n);
    lemma_ip_raw(a0, b1, n);
    lemma_ip_raw(a1, b0, n);
    lemma_ip_raw(a1, b1, n);
    lemma_ip_sums(a0, a1, b0, b1, n);
    let rs = raw_ip(sa, sb, n);
    let r00 = raw_ip(a0, b0, n);
    let r01 = raw_ip(a0, b1, n);
    let r10 = raw_ip(a1, b0, n);
    let r11 = raw_ip(a1, b1, n);
    lemma_sub_mod_noop(rs, r00, L);
    lemma_mod_twice(rs - r00, L);
    lemma_sub_mod_noop(rs - r00, r11, L);
    lemma_sub_mod_noop(rs, r00 + r11, L);
    lemma_sub_mod_noop(r00 + r01 + r10 + r11, r00 + r11, L);
    lemma_add_mod_noop(r01, r10, L);
    assert(rs - r00 - r11 == rs - (r00 + r11));
    assert(r00 + r01 + r10 + r11 - (r00 + r11) == r01 + r10);
}

impl VecPoly1 {
    /// Whether both coefficient vectors have one length.
    pub open spec fn wf(&self) -> bool {
        self.0@.len() == self.1@.len()
    }

    /// The zero polynomial of length `n`.
    pub fn zero(n: usize) -> (r: VecPoly1)
        ensures
            r.wf(),
            r.0@.len() == n,
            forall|i: int| 0 <= i < n ==> (#[trigger] r.0@[i])@ == 0 && r.1@[i]@ == 0,
    {
        let mut a: Vec<Scalar> = Vec::new();
        let mut b: Vec<Scalar> = Vec::new();
        let mut i: usize = 0;
        while i < n
            invariant
                0 <= i <= n,
                a@.len() == i,
                b@.len() == i,
                forall|k: int| 0 <= k < i ==> (#[trigger] a@[k])@ == 0 && b@[k]@ == 0,
            decreases n - i,
        {
            a.push(Scalar::zero());
            b.push(Scalar::zero());
            i = i + 1;
        }
        VecPoly1(a, b)
    }

    /// The coefficients of `<self, rhs>`, a polynomial of degree two, by Karatsuba's method.
    pub fn inner_product(&self, rhs: &VecPoly1) -> (r: Poly2)
        requires
            self.wf(),
            rhs.wf(),
            self.0@.len() == rhs.0@.len(),
        ensures
            r.0@ == inner_product_spec(
                scalar_values(self.0@),
                scalar_values(rhs.0@),
                self.0@.len() as nat,
            ),
            r.2@ == inner_product_spec(
                scalar_values(self.1@),
                scalar_values(rhs.1@),
                self.0@.len() as nat,
            ),
            r.1@ == middle_coeff(
                scalar_values(self.0@),
                scalar_values(self.1@),
                scalar_values(rhs.0@),
                scalar_values(rhs.1@),
            ),
    {
        let t0 = inner_product(self.0.as_slice(), rhs.0.as_slice());
        let t2 = inner_product(self.1.as_slice(), rhs.1.as_slice());
        let l = add_vec(self.0.as_slice(), self.1.as_slice());
        let r = add_vec(rhs.0.as_slice(), rhs.1.as_slice());
        let s = inner_product(l.as_slice(), r.as_slice());
        let ghost n = self.0@.len();
        assert(scalar_values(l@) =~= Seq::new(
            n,
            |i: int| fadd(scalar_values(self.0@)[i], scalar_values(self.1@)[i]),
        ));
        assert(scalar_values(r@) =~= Seq::new(
            n,
            |i: int| fadd(scalar_values(rhs.0@)[i], scalar_values(rhs.1@)[i]),
        ));
        let t1 = s.sub(&t0).sub(&t2);
        proof {
            lemma_karatsuba(
                scalar_values(self.0@),
                scalar_values(self.1@),
                scalar_values(rhs.0@),
                scalar_values(rhs.1@),
            );
        }
        Poly2(t0, t1, t2)
    }

    /// The vector `self.0 + x self.1`.
    pub fn eval(&self, x: &Scalar) -> (r: Vec<Scalar>)
        requires
            self.wf(),
        ensures
            r@.len() == self.0@.len(),
            forall|i: int|
                0 <= i < r@.len() ==> (#[trigger] r@[i])@ == fadd(self.0@[i]@, fmul(self.1@[i]@, x@)),
    {
        let n = self.0.len();
        let mut out: Vec<Scalar> = Vec::new();
        let mut i: usize = 0;
        while i < n
            invariant
                0 <= i <= n,
                n == self.0@.len(),
                self.wf(),
                out@.len() == i,
                forall|k: int|
                    0 <= k < i ==> (#[trigger] out@[k])@ == fadd(self.0@[k]@, fmul(self.1@[k]@, x@)),
            decreases n - i,
        {
            let p = self.1[i].mul(x);
            out.push(self.0[i].add(&p));
            i = i + 1;
        }
        out
    }
}

} // verus!

verus! {

/// The elements `lo..hi` of a slice.
pub fn copy_range<T: Copy>(v: &[T], lo: usize, hi: usize) -> (r: Vec<T>)
    requires
        lo <= hi <= v@.len(),
    ensures
        r@ == v@.subrange(lo as int, hi as int),
{
    let mut out: Vec<T> = Vec::new();
    let mut i: usize = lo;
    while i < hi
        invariant
            lo <= i <= hi,
            hi <= v@.len(),
            out@ == v@.subrange(lo as int, i as int),
        decreases hi - i,
    {
        out.push(v[i]);
        i = i + 1;
        assert(out@ =~= v@.subrange(lo as int, i as int));
    }
    out
}

/// Appends the elements of `w` to `v`.
pub fn extend<T: Copy>(v: &mut Vec<T>, w: &[T])
    ensures
        final(v)@ == old(v)@ + w@,
{
    let mut i: usize = 0;
    while i < w.len()
        invariant
            0 <= i <= w@.len(),
            v@ == old(v)@ + w@.subrange(0, i as int),
        decreases w@.len() - i,
    {
        v.push(w[i]);
        i = i + 1;
        assert(v@ =~= old(v)@ + w@.subrange(0, i as int));
    }
    assert(w@.subrange(0, w@.len() as int) =~= w@);
}

/// `lo[i] x + hi[i] y` for each `i`.
pub open spec fn fold_spec(lo: Seq<int>, hi: Seq<int>, x: int, y: int) -> Seq<int> {
    Seq::new(lo.len(), |i: int| fadd(fmul(lo[i], x), fmul(hi[i], y)))
}

/// The vector `lo x + hi y`.
pub fn fold_scalars(lo: &[Scalar], hi: &[Scalar], x: &Scalar, y: &Scalar) -> (r: Vec<Scalar>)
    requires
        lo@.len() == hi@.len(),
    ensures
        r@.len() == lo@.len(),
        scalar_values(r@) == fold_spec(scalar_values(lo@), scalar_values(hi@), x@, y@),
{
    let mut out: Vec<Scalar> = Vec::new();
    let mut i: usize = 0;
    while i < lo.len()
        invariant
            0 <= i <= lo@.len(),
            lo@.len() == hi@.len(),
            out@.len() == i,
            forall|k: int|
                0 <= k < i ==> (#[trigger] out@[k])@ == fadd(fmul(lo@[k]@, x@), fmul(hi@[k]@, y@)),
        decreases lo@.len() - i,
    {
        let p = lo[i].mul(x);
        let q = hi[i].mul(y);
        out.push(p.add(&q));
        i = i + 1;
    }
    assert(scalar_values(out@) =~= fold_spec(scalar_values(lo@), scalar_values(hi@), x@, y@));
    out
}

/// `v[i] f[i]` for each `i`.
pub open spec fn scale_spec(v: Seq<int>, f: Seq<int>) -> Seq<int> {
    Seq::new(v.len(), |i: int| fmul(v[i], f[i]))
}

/// The elementwise product `v[i] f[i]`.
pub fn scale(v: &[Scalar], f: &[Scalar]) -> (r: Vec<Scalar>)
    requires
        v@.len() == f@.len(),
    ensures
        r@.len() == v@.len(),
        scalar_values(r@) == scale_spec(scalar_values(v@), scalar_values(f@)),
{
    let mut out: Vec<Scalar> = Vec::new();
    let mut i: usize = 0;
    while i < v.len()
        invariant
            i <= v@.len(),
            v@.len() == f@.len(),
            out@.len() == i,
            forall|k: int| 0 <= k < i ==> (#[trigger] out@[k])@ == fmul(v@[k]@, f@[k]@),
        decreases v@.len() - i,
    {
        out.push(v[i].mul(&f[i]));
        i = i + 1;
    }
    assert(scalar_values(out@) =~= scale_spec(scalar_values(v@), scalar_values(f@)));
    out
}

/// `n` copies of `x`.
pub fn repeat(x: &Scalar, n: usize) -> (r: Vec<Scalar>)
    ensures
        scalar_values(r@) == Seq::new(n as nat, |i: int| x@),
        r@.len() == n,
{
    let mut out: Vec<Scalar> = Vec::new();
    let mut i: usize = 0;
    while i < n
        invariant
            i <= n,
            out@.len() == i,
            forall|k: int| 0 <= k < i ==> (#[trigger] out@[k])@ == x@,
        decreases n - i,
    {
        out.push(*x);
        i = i + 1;
    }
    assert(scalar_values(out@) =~= Seq::new(n as nat, |i: int| x@));
    out
}

} // verus!
