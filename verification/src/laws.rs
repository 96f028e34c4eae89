//! Laws of the solver, proved once and for all inputs.
//!
//! Each proof function states a property of the model that the
//! executable functions' contracts speak about: the direction reversal
//! is an involution, an equilibrium state is a fixed point of the BGK
//! and TRT updates, a rest state's equilibrium is the weights, and the
//! TRT construction recovers its target viscosity exactly.

use vstd::prelude::*;
use crate::collision::bgk_cell;
use crate::collision::rat_half;
use crate::collision::trt_cell;
use crate::collision::trt_nu;
use crate::collision::trt_tau_plus;
use crate::lattice::eq_formula;
use crate::lattice::opposite;
use crate::lattice::spec_cs2;
use crate::lattice::spec_weight;
use crate::scalar::Rat;
use crate::scalar::rat_add;
use crate::scalar::rat_div;
use crate::scalar::rat_eq;
use crate::scalar::rat_int;
use crate::scalar::rat_lt;
use crate::scalar::rat_mul;
use crate::scalar::rat_sub;
use crate::scalar::rat_wf;
use crate::scalar::lemma_rat_eq_trans;
use crate::scalar::lemma_rat_op_wf;

verus! {

/// Reversing every direction twice restores the populations: if `q`
/// holds `p` reversed and `r` holds `q` reversed, then `r` is `p`.
pub proof fn lemma_swap_involution(p: Seq<Seq<Rat>>, q: Seq<Seq<Rat>>, r: Seq<Seq<Rat>>)
    requires
        p.len() == 9,
        q.len() == 9,
        r.len() == 9,
        forall|i: int| 0 <= i < 9 ==> #[trigger] q[i] == p[opposite(i)],
        forall|i: int| 0 <= i < 9 ==> #[trigger] r[i] == q[opposite(i)],
    ensures
        forall|i: int| 0 <= i < 9 ==> #[trigger] r[i] == p[i],
{
    assert forall|i: int| 0 <= i < 9 implies #[trigger] r[i] == p[i] by {
        crate::lattice::lemma_opposite_involution(i);
    }
}

/// A population already at its equilibrium is a fixed point of the BGK
/// update: with `f == e` as values, `f - (dt/tau)(f - e)` is `f`.
pub proof fn lemma_bgk_fixed_point(f: Rat, e: Rat, dt: Rat, tau: Rat)
    requires
        rat_wf(f),
        rat_wf(e),
        rat_wf(dt),
        rat_wf(tau),
        tau.n != 0,
        rat_eq(f, e),
    ensures
        rat_eq(bgk_cell(f, e, dt, tau), f),
{
    let d = rat_sub(f, e);
    let q = rat_div(dt, tau);
    let m = rat_mul(q, d);
    lemma_rat_op_wf(f, e);
    lemma_rat_op_wf(dt, tau);
    lemma_rat_op_wf(q, d);
    assert(d.n == 0);
    assert(m.n == 0) by (nonlinear_arith)
        requires
            m.n == q.n * d.n,
            d.n == 0,
    {
    }
    assert(rat_eq(rat_sub(f, m), f)) by (nonlinear_arith)
        requires
            m.n == 0,
            m.d > 0,
            f.d > 0,
            rat_sub(f, m) == (Rat { n: f.n * m.d - m.n * f.d, d: f.d * m.d }),
    {
    }
}

/// Populations already at their equilibrium are a fixed point of the
/// TRT update: when `f == e` and the reversed pair `fo == eo`, both the
/// symmetric and the antisymmetric deviations vanish and the update
/// returns `f`.
pub proof fn lemma_trt_fixed_point(f: Rat, fo: Rat, e: Rat, eo: Rat, dt: Rat, tau_plus: Rat,
    tau_minus: Rat)
    requires
        rat_wf(f),
        rat_wf(fo),
        rat_wf(e),
        rat_wf(eo),
        rat_wf(dt),
        rat_wf(tau_plus),
        rat_wf(tau_minus),
        tau_plus.n != 0,
        tau_minus.n != 0,
        rat_eq(f, e),
        rat_eq(fo, eo),
    ensures
        rat_eq(trt_cell(f, fo, e, eo, dt, tau_plus, tau_minus), f),
{
    let dp = rat_sub(rat_add(f, fo), rat_add(e, eo));
    let dm = rat_sub(rat_sub(f, fo), rat_sub(e, eo));
    let op = rat_div(rat_int(1), tau_plus);
    let om = rat_div(rat_int(1), tau_minus);
    let co = crate::scalar::rat_neg(rat_mul(dt, rat_half()));
    let inner = rat_add(rat_mul(dp, op), rat_mul(dm, om));
    let omega = rat_mul(inner, co);
    lemma_rat_op_wf(f, fo);
    lemma_rat_op_wf(e, eo);
    lemma_rat_op_wf(rat_add(f, fo), rat_add(e, eo));
    lemma_rat_op_wf(rat_sub(f, fo), rat_sub(e, eo));
    lemma_rat_op_wf(rat_int(1), tau_plus);
    lemma_rat_op_wf(rat_int(1), tau_minus);
    lemma_rat_op_wf(dp, op);
    lemma_rat_op_wf(dm, om);
    lemma_rat_op_wf(rat_mul(dp, op), rat_mul(dm, om));
    lemma_rat_op_wf(dt, rat_half());
    lemma_rat_op_wf(rat_mul(dt, rat_half()), rat_half());
    lemma_rat_op_wf(inner, co);
    crate::scalar::lemma_rat_add_cong(f, fo, e, eo);
    assert(dp.n == 0);
    crate::scalar::lemma_rat_sub_cong(f, fo, e, eo);
    assert(dm.n == 0);
    assert(inner.n == 0) by (nonlinear_arith)
        requires
            inner == rat_add(rat_mul(dp, op), rat_mul(dm, om)),
            rat_mul(dp, op) == (Rat { n: dp.n * op.n, d: dp.d * op.d }),
            rat_mul(dm, om) == (Rat { n: dm.n * om.n, d: dm.d * om.d }),
            dp.n == 0,
            dm.n == 0,
    {
    }
    assert(omega.n == 0) by (nonlinear_arith)
        requires
            omega == rat_mul(inner, co),
            inner.n == 0,
    {
    }
    assert(rat_eq(rat_add(f, omega), f)) by (nonlinear_arith)
        requires
            omega.n == 0,
            omega.d > 0,
            f.d > 0,
            rat_add(f, omega) == (Rat { n: f.n * omega.d + omega.n * f.d, d: f.d * omega.d }),
    {
    }
}

/// At a rest state the equilibrium of every direction is the
/// direction's weight times the density: with zero velocity the
/// second-order terms of the expansion vanish.
pub proof fn lemma_equilibrium_at_rest(i: int, rho: Rat, cs2: Rat)
    requires
        rat_wf(rho),
        rat_wf(cs2),
        cs2.n > 0,
    ensures
        rat_eq(eq_formula(i, rho, rat_int(0), rat_int(0), cs2), rat_mul(spec_weight(i), rho)),
{
    let w = spec_weight(i);
    let cx = rat_int(crate::lattice::spec_cx(i));
    let cy = rat_int(crate::lattice::spec_cy(i));
    let z = rat_int(0);
    let cu = rat_add(rat_mul(cx, z), rat_mul(cy, z));
    let u2 = rat_add(rat_mul(z, z), rat_mul(z, z));
    let den2 = rat_mul(rat_int(2), rat_mul(cs2, cs2));
    let den3 = rat_mul(rat_int(2), cs2);
    let t = rat_sub(
        rat_add(
            rat_add(rat_int(1), rat_div(cu, cs2)),
            rat_div(rat_mul(cu, cu), den2),
        ),
        rat_div(u2, den3),
    );
    lemma_rat_op_wf(cx, z);
    lemma_rat_op_wf(cy, z);
    lemma_rat_op_wf(rat_mul(cx, z), rat_mul(cy, z));
    lemma_rat_op_wf(z, z);
    lemma_rat_op_wf(rat_mul(z, z), rat_mul(z, z));
    lemma_rat_op_wf(cs2, cs2);
    lemma_rat_op_wf(rat_int(2), rat_mul(cs2, cs2));
    lemma_rat_op_wf(rat_int(2), cs2);
    assert(den2.n != 0 && den3.n != 0) by (nonlinear_arith)
        requires
            den2.n == 2 * (cs2.n * cs2.n),
            den3.n == 2 * cs2.n,
            cs2.n > 0,
    {
    }
    lemma_rat_op_wf(cu, cs2);
    lemma_rat_op_wf(cu, cu);
    lemma_rat_op_wf(rat_mul(cu, cu), den2);
    lemma_rat_op_wf(u2, den3);
    lemma_rat_op_wf(rat_int(1), rat_div(cu, cs2));
    lemma_rat_op_wf(rat_add(rat_int(1), rat_div(cu, cs2)), rat_div(rat_mul(cu, cu), den2));
    lemma_rat_op_wf(
        rat_add(rat_add(rat_int(1), rat_div(cu, cs2)), rat_div(rat_mul(cu, cu), den2)),
        rat_div(u2, den3));
    assert(cu.n == 0) by (nonlinear_arith)
        requires
            cu == rat_add(rat_mul(cx, z), rat_mul(cy, z)),
            rat_mul(cx, z) == (Rat { n: cx.n * z.n, d: cx.d * z.d }),
            rat_mul(cy, z) == (Rat { n: cy.n * z.n, d: cy.d * z.d }),
            z.n == 0,
    {
    }
    assert(rat_eq(t, rat_int(1))) by (nonlinear_arith)
        requires
            rat_wf(t),
            rat_wf(rat_div(cu, cs2)),
            rat_wf(rat_div(rat_mul(cu, cu), den2)),
            rat_wf(rat_div(u2, den3)),
            cu.n == 0,
            u2.n == 0,
            rat_div(cu, cs2).n == cu.n * crate::scalar::rat_inv(cs2).n,
            rat_div(rat_mul(cu, cu), den2).n == (cu.n * cu.n) * crate::scalar::rat_inv(
                den2).n,
            rat_div(u2, den3).n == u2.n * crate::scalar::rat_inv(den3).n,
            t == rat_sub(
                rat_add(
                    rat_add(rat_int(1), rat_div(cu, cs2)),
                    rat_div(rat_mul(cu, cu), den2)),
                rat_div(u2, den3)),
            rat_add(rat_int(1), rat_div(cu, cs2)) == (Rat {
                n: 1 * rat_div(cu, cs2).d + rat_div(cu, cs2).n * 1,
                d: 1 * rat_div(cu, cs2).d,
            }),
            rat_add(
                rat_add(rat_int(1), rat_div(cu, cs2)),
                rat_div(rat_mul(cu, cu), den2)) == (Rat {
                n: rat_add(rat_int(1), rat_div(cu, cs2)).n * rat_div(rat_mul(cu, cu), den2).d
                    + rat_div(rat_mul(cu, cu), den2).n * rat_add(rat_int(1),
                    rat_div(cu, cs2)).d,
                d: rat_add(rat_int(1), rat_div(cu, cs2)).d * rat_div(rat_mul(cu, cu), den2).d,
            }),
            t == (Rat {
                n: rat_add(
                    rat_add(rat_int(1), rat_div(cu, cs2)),
                    rat_div(rat_mul(cu, cu), den2)).n * rat_div(u2, den3).d - rat_div(u2,
                    den3).n * rat_add(
                    rat_add(rat_int(1), rat_div(cu, cs2)),
                    rat_div(rat_mul(cu, cu), den2)).d,
                d: rat_add(
                    rat_add(rat_int(1), rat_div(cu, cs2)),
                    rat_div(rat_mul(cu, cu), den2)).d * rat_div(u2, den3).d,
            }),
    {
    }
    lemma_rat_op_wf(w, rho);
    crate::scalar::lemma_rat_mul_cong(rat_mul(w, rho), t, rat_mul(w, rho), rat_int(1));
    lemma_rat_op_wf(rat_mul(w, rho), t);
    lemma_rat_op_wf(rat_mul(w, rho), rat_int(1));
    assert(rat_eq(rat_mul(rat_mul(w, rho), rat_int(1)), rat_mul(w, rho)))
        by (nonlinear_arith)
        requires
            rat_mul(rat_mul(w, rho), rat_int(1)) == (Rat {
                n: rat_mul(w, rho).n * 1,
                d: rat_mul(w, rho).d * 1,
            }),
            rat_mul(w, rho).d > 0,
    {
    }
    lemma_rat_eq_trans(
        eq_formula(i, rho, z, z, cs2),
        rat_mul(rat_mul(w, rho), rat_int(1)),
        rat_mul(w, rho));
}

/// Building a TRT operator for a target viscosity and reading the
/// viscosity back recovers the target exactly.
pub proof fn lemma_trt_viscosity_round_trip(dx: Rat, dt: Rat, nu: Rat)
    requires
        rat_wf(dx),
        rat_wf(dt),
        rat_wf(nu),
        rat_lt(rat_int(0), dx),
        rat_lt(rat_int(0), dt),
    ensures
        rat_eq(trt_nu(dx, dt, trt_tau_plus(dx, dt, nu)), nu),
{
    let cs2 = spec_cs2(dx, dt);
    crate::lattice::lemma_cs2_pos(dx, dt);
    let x = rat_add(rat_div(nu, cs2), rat_half());
    let tp = rat_mul(dt, x);
    lemma_rat_op_wf(nu, cs2);
    lemma_rat_op_wf(rat_div(nu, cs2), rat_half());
    lemma_rat_op_wf(dt, x);
    lemma_rat_op_wf(tp, dt);
    lemma_rat_op_wf(rat_mul(dt, x), dt);
    crate::collision::lemma_div_mul_cancel(dt, x);
    crate::scalar::lemma_rat_div_cong(tp, dt, rat_mul(dt, x), dt);
    lemma_rat_eq_trans(rat_div(tp, dt), rat_div(rat_mul(dt, x), dt), x);
    crate::scalar::lemma_rat_sub_cong(rat_div(tp, dt), rat_half(), x, rat_half());
    crate::collision::lemma_add_sub_cancel(rat_div(nu, cs2), rat_half());
    lemma_rat_op_wf(rat_div(tp, dt), rat_half());
    lemma_rat_op_wf(x, rat_half());
    lemma_rat_eq_trans(
        rat_sub(rat_div(tp, dt), rat_half()),
        rat_sub(x, rat_half()),
        rat_div(nu, cs2));
    crate::scalar::lemma_rat_mul_cong(
        cs2, rat_sub(rat_div(tp, dt), rat_half()), cs2, rat_div(nu, cs2));
    crate::collision::lemma_mul_div_cancel(cs2, nu);
    lemma_rat_op_wf(cs2, rat_sub(rat_div(tp, dt), rat_half()));
    lemma_rat_op_wf(cs2, rat_div(nu, cs2));
    lemma_rat_eq_trans(
        rat_mul(cs2, rat_sub(rat_div(tp, dt), rat_half())),
        rat_mul(cs2, rat_div(nu, cs2)),
        nu);
}

} // verus!
