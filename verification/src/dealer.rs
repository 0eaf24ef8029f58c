//! The trusted dealer: Shamir-shares a secret over the curve's scalar field
//! and publishes one commitment per share.
//!
//! The dealer samples a polynomial whose constant term is the secret,
//! evaluates it at the party indices 1..=n, and commits to every share with
//! the common generator.  Sending the resulting messages is left to the
//! caller; building them is exact arithmetic and is verified here.

use vstd::prelude::*;
use vstd::string::StringExecFns;

verus! {

use crate::codec::hex_of;
use crate::group::g1_mul;
use crate::group::g1_mul_of;
use crate::group::g1_tag_gen;
use crate::group::G1Elem;
use crate::scalar::fr_add;
use crate::scalar::fr_from_u64;
use crate::scalar::fr_mul;
use crate::scalar::fr_order;
use crate::scalar::fr_random;
use crate::scalar::fr_sub;
use crate::scalar::Scalar;
use vstd::arithmetic::div_mod::lemma_add_mod_noop;
use vstd::arithmetic::div_mod::lemma_add_mod_noop_right;
use vstd::arithmetic::div_mod::lemma_mod_bound;
use vstd::arithmetic::div_mod::lemma_mul_mod_noop_general;
use vstd::arithmetic::div_mod::lemma_mul_mod_noop_left;
use vstd::arithmetic::div_mod::lemma_mul_mod_noop_right;
use vstd::arithmetic::div_mod::lemma_small_mod;
use vstd::arithmetic::mul::lemma_mul_is_commutative;

/// The fixed domain-separation tag of the dealer's G1 generator.  Changing
/// it changes the protocol's trust root.
pub open spec fn dealer_tag() -> Seq<u8> {
    seq![115u8, 121u8, 114u8, 97u8, 45u8, 103u8, 101u8, 110u8, 101u8, 114u8, 97u8, 116u8, 111u8,
        114u8]
}

/// The tag bytes, "syra-generator" in ASCII.
pub fn dealer_tag_bytes() -> (r: Vec<u8>)
    ensures
        r@ == dealer_tag(),
{
    let v: Vec<u8> = vec![115u8, 121u8, 114u8, 97u8, 45u8, 103u8, 101u8, 110u8, 101u8, 114u8,
        97u8, 116u8, 111u8, 114u8];
    proof {
        assert(v@ =~= dealer_tag());
    }
    v
}

/// The dealer's generator, derived once from the fixed tag.
pub fn dealer_generator() -> (r: G1Elem)
    ensures
        r.wf(),
        r.b@ == g1_tag_gen(dealer_tag()),
{
    let tag = dealer_tag_bytes();
    crate::group::g1_from_tag(tag.as_slice())
}

/// The values of a coefficient vector.
pub open spec fn scalar_vals(s: Seq<Scalar>) -> Seq<int> {
    s.map_values(|c: Scalar| c.val())
}

/// Horner reading of a coefficient sequence at a point: coefficient 0 is the
/// constant term, so the value at 0 is the dealt secret.
pub open spec fn poly_eval(coeffs: Seq<int>, x: int) -> int
    decreases coeffs.len(),
{
    if coeffs.len() == 0 {
        0
    } else {
        coeffs[0] + x * poly_eval(coeffs.skip(1), x)
    }
}

/// Sample `t` random field elements: the polynomial's coefficients, the
/// first of which is the dealt secret.
pub fn sample_polynomial(t: usize) -> (r: Vec<Scalar>)
    requires
        t >= 1,
    ensures
        r@.len() == t,
        forall|i: int| 0 <= i < r@.len() ==> (#[trigger] r@[i]).wf(),
{
    let mut out: Vec<Scalar> = Vec::new();
    while out.len() < t
        invariant
            out@.len() <= t,
            forall|i: int| 0 <= i < out@.len() ==> (#[trigger] out@[i]).wf(),
        decreases t - out@.len(),
    {
        out.push(fr_random());
    }
    out
}

/// Evaluate the polynomial at `x`, exactly, in the scalar field.
pub fn eval_poly_mod(coeffs: &Vec<Scalar>, x: &Scalar) -> (r: Scalar)
    requires
        forall|i: int| 0 <= i < coeffs@.len() ==> (#[trigger] coeffs@[i]).wf(),
        x.wf(),
    ensures
        r.wf(),
        r.val() == poly_eval(scalar_vals(coeffs@), x.val()) % fr_order(),
{
    let ghost vals = scalar_vals(coeffs@);
    let mut acc = fr_from_u64(0);
    let mut j: usize = coeffs.len();
    proof {
        assert(vals.skip(j as int) =~= Seq::<int>::empty());
        lemma_small_mod(0nat, fr_order() as nat);
    }
    while j > 0
        invariant
            0 <= j <= coeffs@.len(),
            forall|i: int| 0 <= i < coeffs@.len() ==> (#[trigger] coeffs@[i]).wf(),
            x.wf(),
            acc.wf(),
            vals == scalar_vals(coeffs@),
            acc.val() == poly_eval(vals.skip(j as int), x.val()) % fr_order(),
        decreases j,
    {
        j = j - 1;
        let prod = fr_mul(&acc, x);
        let acc2 = fr_add(&prod, &coeffs[j]);
        proof {
            let r = fr_order();
            let xv = x.val();
            let cj = vals[j as int];
            let tail = poly_eval(vals.skip(j as int + 1), xv);
            assert(vals.skip(j as int)[0] == vals[j as int]);
            assert(vals.skip(j as int).skip(1) =~= vals.skip(j as int + 1));
            assert(poly_eval(vals.skip(j as int), xv) == cj + xv * tail);
            assert(coeffs@[j as int].val() == cj);
            // prod carries (tail * xv) % r.
            assert(prod.val() == ((tail % r) * xv) % r);
            lemma_mul_mod_noop_left(tail, xv, r);
            assert(prod.val() == (tail * xv) % r);
            // acc2 folds in the coefficient without changing the residue.
            crate::codec::lemma_le_val_bound(coeffs@[j as int].b@);
            assert(0 <= cj < r);
            lemma_small_mod(cj as nat, r as nat);
            lemma_add_mod_noop(tail * xv, cj, r);
            assert(acc2.val() == ((tail * xv) % r + cj % r) % r);
            assert(acc2.val() == (tail * xv + cj) % r);
            lemma_mul_is_commutative(xv, tail);
        }
        acc = acc2;
    }
    proof {
        assert(vals.skip(0) =~= vals);
    }
    acc
}

/// What the dealer publishes and stores: the group public key, one share
/// per party (index i at position i-1), and one commitment per share.
pub struct DealerOutput {
    pub group_public: G1Elem,
    pub shares: Vec<Scalar>,
    pub commitments: Vec<G1Elem>,
}

impl DealerOutput {
    pub open spec fn wf(&self) -> bool {
        &&& self.group_public.wf()
        &&& self.shares@.len() == self.commitments@.len()
        &&& forall|i: int| 0 <= i < self.shares@.len() ==> (#[trigger] self.shares@[i]).wf()
        &&& forall|i: int|
            0 <= i < self.commitments@.len() ==> (#[trigger] self.commitments@[i]).wf()
    }
}

/// Every published value of a deal, pinned to the polynomial: share i is the
/// evaluation at i, and each commitment is the generator raised to exactly
/// that share.
pub open spec fn deal_exact(coeffs: Seq<Scalar>, out: DealerOutput, n: int) -> bool {
    let g = g1_tag_gen(dealer_tag());
    &&& out.group_public.b@ == g1_mul_of(g, coeffs[0].val())
    &&& out.shares@.len() == n
    &&& out.commitments@.len() == n
    &&& forall|i: int|
        0 <= i < n ==> (#[trigger] out.shares@[i]).val() == poly_eval(
            scalar_vals(coeffs),
            i + 1,
        ) % fr_order()
    &&& forall|i: int|
        0 <= i < n ==> (#[trigger] out.commitments@[i]).b@ == g1_mul_of(
            g,
            out.shares@[i].val(),
        )
}

/// Commitments bind shares, as a law: in every deal, the published
/// commitment of party i is the common generator raised to exactly the
/// share dealt to party i, the polynomial's value at i.
pub proof fn lemma_commitments_bind_shares(coeffs: Seq<Scalar>, out: DealerOutput, n: int)
    requires
        deal_exact(coeffs, out, n),
    ensures
        forall|i: int|
            0 <= i < n ==> (#[trigger] out.commitments@[i]).b@ == g1_mul_of(
                g1_tag_gen(dealer_tag()),
                poly_eval(scalar_vals(coeffs), i + 1) % fr_order(),
            ),
{
}

/// Evaluate the shares at 1..=n and commit to each of them.
pub fn deal(coeffs: &Vec<Scalar>, n: usize) -> (r: DealerOutput)
    requires
        1 <= coeffs@.len() <= n,
        forall|i: int| 0 <= i < coeffs@.len() ==> (#[trigger] coeffs@[i]).wf(),
    ensures
        r.wf(),
        deal_exact(coeffs@, r, n as int),
{
    let g = dealer_generator();
    let group_public = g1_mul(&g, &coeffs[0]);
    let mut shares: Vec<Scalar> = Vec::new();
    let mut commitments: Vec<G1Elem> = Vec::new();
    let mut i: usize = 0;
    while i < n
        invariant
            0 <= i <= n,
            1 <= coeffs@.len() <= n,
            forall|k: int| 0 <= k < coeffs@.len() ==> (#[trigger] coeffs@[k]).wf(),
            g.wf(),
            g.b@ == g1_tag_gen(dealer_tag()),
            shares@.len() == i,
            commitments@.len() == i,
            forall|k: int| 0 <= k < i ==> (#[trigger] shares@[k]).wf(),
            forall|k: int| 0 <= k < i ==> (#[trigger] commitments@[k]).wf(),
            forall|k: int|
                0 <= k < i ==> (#[trigger] shares@[k]).val() == poly_eval(
                    scalar_vals(coeffs@),
                    k + 1,
                ) % fr_order(),
            forall|k: int|
                0 <= k < i ==> (#[trigger] commitments@[k]).b@ == g1_mul_of(
                    g.b@,
                    shares@[k].val(),
                ),
        decreases n - i,
    {
        let x = fr_from_u64((i + 1) as u64);
        proof {
            assert(x.val() == i + 1);
        }
        let s = eval_poly_mod(coeffs, &x);
        let c = g1_mul(&g, &s);
        shares.push(s);
        commitments.push(c);
        i = i + 1;
    }
    DealerOutput { group_public, shares, commitments }
}

/// One dealt message, as it crosses the wire: session id and hex-encoded
/// group elements and share.
pub struct DkgPointMessage {
    pub sid: String,
    pub group_public_hex: String,
    pub share_hex: String,
    pub commitments_hex: Vec<String>,
}

/// Build the message for party `index` (1-based): the session id, the hex
/// of the group public key, the hex of that party's own share, and the hex
/// of the full commitment list.
pub fn share_message(out: &DealerOutput, sid: &str, index: usize) -> (r: DkgPointMessage)
    requires
        out.wf(),
        1 <= index <= out.shares@.len(),
    ensures
        r.sid@ == sid@,
        r.group_public_hex@ == hex_of(out.group_public.b@),
        r.share_hex@ == hex_of(out.shares@[index - 1].b@),
        r.commitments_hex@.len() == out.commitments@.len(),
        forall|i: int|
            0 <= i < out.commitments@.len() ==> (#[trigger] r.commitments_hex@[i])@ == hex_of(
                out.commitments@[i].b@,
            ),
{
    let mut commitments_hex: Vec<String> = Vec::new();
    let mut i: usize = 0;
    while i < out.commitments.len()
        invariant
            out.wf(),
            0 <= i <= out.commitments@.len(),
            commitments_hex@.len() == i,
            forall|k: int|
                0 <= k < i ==> (#[trigger] commitments_hex@[k])@ == hex_of(
                    out.commitments@[k].b@,
                ),
        decreases out.commitments@.len() - i,
    {
        commitments_hex.push(crate::codec::hex_encode(&out.commitments[i].b));
        i = i + 1;
    }
    DkgPointMessage {
        sid: String::from_str(sid),
        group_public_hex: crate::codec::hex_encode(&out.group_public.b),
        share_hex: crate::codec::hex_encode(&out.shares[index - 1].b),
        commitments_hex,
    }
}

// ------------------------------------------------------------------
// Reconstruction by Lagrange interpolation at zero.
// ------------------------------------------------------------------

/// One factor of a Lagrange weight: x_j · (x_j − x_i)⁻¹ in the field.
pub open spec fn lagrange_term(xs: Seq<int>, i: int, j: int) -> int {
    (xs[j] * crate::scalar::inv_mod((xs[j] - xs[i]) % fr_order(), fr_order())) % fr_order()
}

/// The partial product of a Lagrange weight over the points before `k`,
/// the point `i` itself excluded.
pub open spec fn weight_upto(xs: Seq<int>, i: int, k: int) -> int
    decreases k,
{
    if k <= 0 {
        1
    } else if k - 1 == i {
        weight_upto(xs, i, k - 1)
    } else {
        (weight_upto(xs, i, k - 1) * lagrange_term(xs, i, k - 1)) % fr_order()
    }
}

/// The Lagrange weight of point `i`: the product of its terms over every
/// other point.
pub open spec fn lagrange_weight(xs: Seq<int>, i: int) -> int {
    weight_upto(xs, i, xs.len() as int)
}

/// The partial interpolation sum over the first `k` points.
pub open spec fn lagrange_upto(xs: Seq<int>, ys: Seq<int>, k: int) -> int
    decreases k,
{
    if k <= 0 {
        0
    } else {
        (lagrange_upto(xs, ys, k - 1) + ys[k - 1] * lagrange_weight(xs, k - 1)) % fr_order()
    }
}

/// The Lagrange interpolation of the points at x = 0, in the field.
pub open spec fn lagrange_at_zero(xs: Seq<int>, ys: Seq<int>) -> int {
    lagrange_upto(xs, ys, xs.len() as int)
}

/// The values of a u64 index vector.
pub open spec fn u64_vals(s: Seq<u64>) -> Seq<int> {
    s.map_values(|x: u64| x as int)
}

/// Interpolate shares at zero: with the dealt points this recovers the
/// dealt secret.  Fails exactly when two indices coincide modulo the field
/// order, where a weight's difference has no inverse.
pub fn reconstruct_secret(xs: &Vec<u64>, shares: &Vec<Scalar>) -> (r: Option<Scalar>)
    requires
        xs@.len() == shares@.len(),
        forall|i: int| 0 <= i < shares@.len() ==> (#[trigger] shares@[i]).wf(),
    ensures
        (r is Some) <==> (forall|i: int, j: int|
            0 <= i < xs@.len() && 0 <= j < xs@.len() && i != j ==> (xs@[j] - xs@[i]) % fr_order()
                != 0),
        r matches Some(s) ==> s.wf() && s.val() == lagrange_at_zero(
            u64_vals(xs@),
            scalar_vals(shares@),
        ),
{
    let ghost xv = u64_vals(xs@);
    let ghost yv = scalar_vals(shares@);
    let n = xs.len();
    let mut acc = fr_from_u64(0);
    let mut i: usize = 0;
    proof {
        lemma_small_mod(0nat, fr_order() as nat);
    }
    while i < n
        invariant
            xs@.len() == n,
            shares@.len() == n,
            forall|k: int| 0 <= k < shares@.len() ==> (#[trigger] shares@[k]).wf(),
            xv == u64_vals(xs@),
            yv == scalar_vals(shares@),
            0 <= i <= n,
            acc.wf(),
            acc.val() == lagrange_upto(xv, yv, i as int),
            forall|a: int, b: int|
                0 <= a < i && 0 <= b < xs@.len() && a != b ==> (xs@[b] - xs@[a]) % fr_order()
                    != 0,
        decreases n - i,
    {
        let xi = fr_from_u64(xs[i]);
        let mut w = fr_from_u64(1);
        let mut j: usize = 0;
        proof {
            lemma_small_mod(1nat, fr_order() as nat);
        }
        while j < n
            invariant
                xs@.len() == n,
                shares@.len() == n,
                xv == u64_vals(xs@),
                0 <= i < n,
                0 <= j <= n,
                xi.wf(),
                xi.val() == xs@[i as int],
                w.wf(),
                w.val() == weight_upto(xv, i as int, j as int),
                forall|b: int| 0 <= b < j && b != i ==> (xs@[b] - xs@[i as int]) % fr_order()
                    != 0,
            decreases n - j,
        {
            if j != i {
                let xj = fr_from_u64(xs[j]);
                let d = fr_sub(&xj, &xi);
                let dinv = match crate::scalar::fr_inverse(&d) {
                    Some(v) => v,
                    None => {
                        proof {
                            assert((xs@[j as int] - xs@[i as int]) % fr_order() == 0);
                        }
                        return None;
                    },
                };
                proof {
                    crate::codec::lemma_le_val_bound(dinv.b@);
                    crate::scalar::lemma_inv_mod_of_witness(d.val(), dinv.val(), fr_order());
                }
                let term = fr_mul(&xj, &dinv);
                let w2 = fr_mul(&w, &term);
                proof {
                    let r = fr_order();
                    assert(xj.val() == xv[j as int]);
                    // term carries x_j · (x_j − x_i)⁻¹ with x_j reduced.
                    lemma_small_mod(xs@[j as int] as nat, r as nat);
                    lemma_mul_mod_noop_left(xv[j as int], dinv.val(), r);
                    assert(term.val() == lagrange_term(xv, i as int, j as int));
                    lemma_mul_mod_noop_right(
                        weight_upto(xv, i as int, j as int),
                        lagrange_term(xv, i as int, j as int),
                        r,
                    );
                }
                w = w2;
            }
            j = j + 1;
        }
        let term = fr_mul(&shares[i], &w);
        let acc2 = fr_add(&acc, &term);
        proof {
            let r = fr_order();
            assert(w.val() == lagrange_weight(xv, i as int));
            assert(shares@[i as int].val() == yv[i as int]);
            crate::codec::lemma_le_val_bound(acc.b@);
            lemma_mul_mod_noop_right(yv[i as int], lagrange_weight(xv, i as int), r);
            lemma_small_mod(acc.val() as nat, r as nat);
            vstd::arithmetic::div_mod::lemma_add_mod_noop_right(
                acc.val(),
                yv[i as int] * lagrange_weight(xv, i as int),
                r,
            );
            assert(acc2.val() == lagrange_upto(xv, yv, i + 1));
        }
        acc = acc2;
        i = i + 1;
    }
    Some(acc)
}

/// Interpolation recovers the secret at threshold two: for any degree-one
/// polynomial and two evaluation points whose difference is invertible in
/// the field — every nonzero difference is, the order being prime, which
/// the two inverse hypotheses carry — the Lagrange combination of the two
/// shares at zero is exactly the constant term, the dealt secret.
pub proof fn lemma_two_shares_recover_secret(coeffs: Seq<int>, xs: Seq<int>, ys: Seq<int>)
    requires
        xs.len() == 2,
        ys.len() == 2,
        1 <= coeffs.len() <= 2,
        ys[0] == poly_eval(coeffs, xs[0]) % fr_order(),
        ys[1] == poly_eval(coeffs, xs[1]) % fr_order(),
        (crate::scalar::inv_mod((xs[1] - xs[0]) % fr_order(), fr_order()) * ((xs[1] - xs[0])
            % fr_order())) % fr_order() == 1,
        (crate::scalar::inv_mod((xs[0] - xs[1]) % fr_order(), fr_order()) * ((xs[0] - xs[1])
            % fr_order())) % fr_order() == 1,
    ensures
        lagrange_at_zero(xs, ys) == coeffs[0] % fr_order(),
{
    let p = fr_order();
    let x0 = xs[0];
    let x1 = xs[1];
    let e = x1 - x0;
    let i0 = crate::scalar::inv_mod(e % p, p);
    let i1 = crate::scalar::inv_mod((-e) % p, p);
    let c0 = coeffs[0];
    let c1: int = if coeffs.len() == 2 {
        coeffs[1]
    } else {
        0
    };
    // The two evaluations, written over the two coefficients.
    assert(poly_eval(coeffs, x0) == c0 + x0 * c1 && poly_eval(coeffs, x1) == c0 + x1 * c1) by {
        if coeffs.len() == 2 {
            assert(coeffs.skip(1)[0] == coeffs[1]);
            assert(coeffs.skip(1).skip(1) =~= Seq::<int>::empty());
            assert(poly_eval(coeffs.skip(1).skip(1), x0) == 0);
            assert(poly_eval(coeffs.skip(1).skip(1), x1) == 0);
            assert(poly_eval(coeffs.skip(1), x0) == c1 + x0 * 0);
            assert(poly_eval(coeffs.skip(1), x1) == c1 + x1 * 0);
        } else {
            assert(coeffs.skip(1) =~= Seq::<int>::empty());
            assert(poly_eval(coeffs.skip(1), x0) == 0);
            assert(poly_eval(coeffs.skip(1), x1) == 0);
        }
    }
    // The two weights, unfolded.
    let w0 = (x1 * i0) % p;
    let w1 = (x0 * i1) % p;
    assert(lagrange_weight(xs, 0) == w0 && lagrange_weight(xs, 1) == w1) by {
        assert(lagrange_term(xs, 0, 1) == (x1 * i0) % p);
        assert(lagrange_term(xs, 1, 0) == (x0 * i1) % p);
        assert(weight_upto(xs, 0, 0) == 1);
        assert(weight_upto(xs, 0, 1) == 1);
        assert(weight_upto(xs, 0, 2) == (weight_upto(xs, 0, 1) * lagrange_term(xs, 0, 1)) % p);
        assert(weight_upto(xs, 1, 0) == 1);
        assert(weight_upto(xs, 1, 1) == (weight_upto(xs, 1, 0) * lagrange_term(xs, 1, 0)) % p);
        assert(weight_upto(xs, 1, 2) == weight_upto(xs, 1, 1));
        lemma_mod_bound(x1 * i0, p);
        lemma_mod_bound(x0 * i1, p);
        lemma_small_mod(((x1 * i0) % p) as nat, p as nat);
        lemma_small_mod(((x0 * i1) % p) as nat, p as nat);
    }
    // The interpolation sum, unfolded.
    assert(lagrange_at_zero(xs, ys) == ((ys[0] * w0) % p + ys[1] * w1) % p) by {
        assert(lagrange_upto(xs, ys, 0) == 0);
        assert(lagrange_upto(xs, ys, 1) == (0 + ys[0] * lagrange_weight(xs, 0)) % p);
        assert(lagrange_upto(xs, ys, 2) == (lagrange_upto(xs, ys, 1) + ys[1] * lagrange_weight(
            xs,
            1,
        )) % p);
    }
    // Lift both products to the integers.
    let y0i = c0 + x0 * c1;
    let y1i = c0 + x1 * c1;
    let a = y0i * (x1 * i0);
    let b = y1i * (x0 * i1);
    assert((ys[0] * w0) % p == a % p) by {
        lemma_mul_mod_noop_general(y0i, x1 * i0, p);
    }
    assert((ys[1] * w1) % p == b % p) by {
        lemma_mul_mod_noop_general(y1i, x0 * i1, p);
    }
    assert(lagrange_at_zero(xs, ys) == (a + b) % p) by {
        lemma_add_mod_noop_right(a % p, ys[1] * w1, p);
        lemma_add_mod_noop_right(a % p, b, p);
        lemma_add_mod_noop(a, b, p);
        lemma_mod_bound(b, p);
        lemma_small_mod((b % p) as nat, p as nat);
    }
    // The ring identity behind Lagrange interpolation at two points.
    let wsum = x1 * i0 + x0 * i1;
    assert((c0 + x0 * c1) * (x1 * i0) == c0 * (x1 * i0) + (c1 * (x0 * x1)) * i0)
        by (nonlinear_arith);
    assert((c0 + x1 * c1) * (x0 * i1) == c0 * (x0 * i1) + (c1 * (x0 * x1)) * i1)
        by (nonlinear_arith);
    assert((c1 * (x0 * x1)) * i0 + (c1 * (x0 * x1)) * i1 == (c1 * (x0 * x1)) * (i0 + i1)) by {
        vstd::arithmetic::mul::lemma_mul_is_distributive_add(c1 * (x0 * x1), i0, i1);
    }
    assert(c0 * (x1 * i0) + c0 * (x0 * i1) == c0 * (x1 * i0 + x0 * i1)) by {
        vstd::arithmetic::mul::lemma_mul_is_distributive_add(c0, x1 * i0, x0 * i1);
    }
    assert(a + b == c0 * wsum + (c1 * (x0 * x1)) * (i0 + i1));
    // The difference inverses are negatives of one another modulo p.
    assert((i0 * e) % p == 1) by {
        lemma_mul_mod_noop_right(i0, e, p);
    }
    assert((i1 * e) % p == p - 1) by {
        lemma_mul_mod_noop_right(i1, -e, p);
        assert((i1 * (-e)) % p == 1);
        assert(i1 * (-(x1 - x0)) == -(i1 * (x1 - x0))) by (nonlinear_arith);
        assert(i1 * (-e) == -(i1 * e));
        let q = (-(i1 * e)) / p;
        vstd::arithmetic::div_mod::lemma_fundamental_div_mod(-(i1 * e), p);
        assert(-(i1 * e) == p * q + 1);
        assert(i1 * e == (-q - 1) * p + (p - 1)) by {
            vstd::arithmetic::mul::lemma_mul_is_distributive_add_other_way(p, -q, -1);
            vstd::arithmetic::mul::lemma_mul_is_commutative(p, q);
            vstd::arithmetic::mul::lemma_mul_is_commutative(p, -q);
        }
        vstd::arithmetic::div_mod::lemma_fundamental_div_mod_converse(i1 * e, p, -q - 1, p - 1);
    }
    assert(((i0 + i1) * e) % p == 0) by {
        assert((i0 + i1) * (x1 - x0) == i0 * (x1 - x0) + i1 * (x1 - x0)) by (nonlinear_arith);
        assert((i0 + i1) * e == i0 * e + i1 * e);
        lemma_add_mod_noop(i0 * e, i1 * e, p);
        lemma_mod_bound(i0 * e, p);
        lemma_mod_bound(i1 * e, p);
    }
    assert((i0 + i1) % p == 0) by {
        let z = i0 + i1;
        assert((e * i0) % p == 1) by {
            assert((x1 - x0) * i0 == i0 * (x1 - x0)) by (nonlinear_arith);
            assert(e * i0 == i0 * e);
        }
        assert((z * (e * i0)) % p == z % p) by {
            lemma_mul_mod_noop_right(z, e * i0, p);
            lemma_small_mod(1nat, p as nat);
        }
        assert(z * (e * i0) == (z * e) * i0) by {
            vstd::arithmetic::mul::lemma_mul_is_associative(z, e, i0);
        }
        assert(((z * e) * i0) % p == 0) by {
            lemma_mul_mod_noop_left(z * e, i0, p);
            assert((0int * i0) % p == 0) by {
                lemma_small_mod(0nat, p as nat);
            }
        }
    }
    // The weights sum to one, and the cross terms cancel.
    assert(wsum % p == 1) by {
        assert(x1 * i0 + x0 * i1 == i0 * (x1 - x0) + x0 * (i0 + i1)) by (nonlinear_arith);
        assert(wsum == i0 * e + x0 * (i0 + i1));
        lemma_add_mod_noop(i0 * e, x0 * (i0 + i1), p);
        assert((x0 * (i0 + i1)) % p == 0) by {
            lemma_mul_mod_noop_right(x0, i0 + i1, p);
            lemma_small_mod(0nat, p as nat);
        }
        lemma_small_mod(1nat, p as nat);
    }
    assert(((c1 * (x0 * x1)) * (i0 + i1)) % p == 0) by {
        lemma_mul_mod_noop_right(c1 * (x0 * x1), i0 + i1, p);
        lemma_small_mod(0nat, p as nat);
    }
    assert((a + b) % p == c0 % p) by {
        lemma_add_mod_noop(c0 * wsum, (c1 * (x0 * x1)) * (i0 + i1), p);
        assert((c0 * wsum) % p == c0 % p) by {
            lemma_mul_mod_noop_right(c0, wsum, p);
        }
        lemma_mod_bound(c0, p);
        lemma_small_mod((c0 % p) as nat, p as nat);
    }
}

} // verus!
