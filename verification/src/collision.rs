//! Collision operators.
//!
//! Each operator maps the current populations and their equilibrium to
//! the post-collision populations, cell by cell.  The variants are the
//! single-relaxation-time BGK model, the two-relaxation-time TRT model,
//! the regularized projection and the entropic KBC model; a sum type
//! dispatches between them.

use vstd::prelude::*;
use crate::field::Matrix;
use crate::lattice::D2Q9;
use crate::lattice::Discretization;
use crate::lattice::spec_cs2;
use crate::scalar::Error;
use crate::scalar::Rat;
use crate::scalar::Scalar;
use crate::scalar::rat_add;
use crate::scalar::rat_div;
use crate::scalar::rat_eq;
use crate::scalar::rat_int;
use crate::scalar::rat_mul;
use crate::scalar::rat_neg;
use crate::scalar::rat_sub;
use crate::scalar::rat_wf;
use crate::scalar::lemma_rat_eq_trans;
use crate::scalar::lemma_rat_op_wf;
use crate::scalar::lemma_rat_eq_nonzero;
use crate::scalar::lemma_rewrite_add;
use crate::scalar::lemma_rewrite_sub;
use crate::scalar::lemma_rewrite_mul;
use crate::scalar::lemma_rewrite_div;

verus! {

/// One half, as a fraction.
pub open spec fn rat_half() -> Rat {
    Rat { n: 1, d: 2 }
}

/// Post-collision population of the BGK model at one cell:
/// `f - (dt/tau) (f - e)`.
pub open spec fn bgk_cell(f: Rat, e: Rat, dt: Rat, tau: Rat) -> Rat {
    rat_sub(f, rat_mul(rat_div(dt, tau), rat_sub(f, e)))
}

/// Kinematic shear viscosity of the BGK model:
/// `cs2 (tau - dt/2)`, with `cs2 = dx^2/(3 dt^2)`.
pub open spec fn bgk_nu(dx: Rat, dt: Rat, tau: Rat) -> Rat {
    rat_mul(spec_cs2(dx, dt), rat_sub(tau, rat_div(dt, rat_int(2))))
}

/// Kinematic shear viscosity of the TRT model:
/// `cs2 (tau_plus/dt - 1/2)`.
pub open spec fn trt_nu(dx: Rat, dt: Rat, tau_plus: Rat) -> Rat {
    rat_mul(spec_cs2(dx, dt), rat_sub(rat_div(tau_plus, dt), rat_half()))
}

/// The symmetric relaxation time the TRT model derives from a target
/// viscosity: `dt (nu/cs2 + 1/2)`.
pub open spec fn trt_tau_plus(dx: Rat, dt: Rat, nu: Rat) -> Rat {
    rat_mul(dt, rat_add(rat_div(nu, spec_cs2(dx, dt)), rat_half()))
}

/// The antisymmetric relaxation time the TRT model derives from the
/// magic parameter: `dt (lambda/(tau_plus/dt - 1/2) + 1/2)`.
pub open spec fn trt_tau_minus(dt: Rat, tau_plus: Rat, lambda: Rat) -> Rat {
    rat_mul(dt, rat_add(rat_div(lambda, rat_sub(rat_div(tau_plus, dt), rat_half())), rat_half()))
}

/// The magic parameter recovered from the two relaxation times:
/// `(tau_plus/dt - 1/2)(tau_minus/dt - 1/2)`.
pub open spec fn trt_lambda(dt: Rat, tau_plus: Rat, tau_minus: Rat) -> Rat {
    rat_mul(
        rat_mul(rat_int(1), rat_sub(rat_div(tau_plus, dt), rat_half())),
        rat_sub(rat_div(tau_minus, dt), rat_half()),
    )
}

/// Post-collision population of the TRT model at one cell, from the
/// population `f`, its reversed-direction partner `fo`, the equilibrium
/// `e` and the reversed equilibrium `eo`.
pub open spec fn trt_cell(f: Rat, fo: Rat, e: Rat, eo: Rat, dt: Rat, tau_plus: Rat,
    tau_minus: Rat) -> Rat {
    let omega = rat_mul(
        rat_add(
            rat_mul(
                rat_sub(rat_add(f, fo), rat_add(e, eo)),
                rat_div(rat_int(1), tau_plus),
            ),
            rat_mul(
                rat_sub(rat_sub(f, fo), rat_sub(e, eo)),
                rat_div(rat_int(1), tau_minus),
            ),
        ),
        rat_neg(rat_mul(dt, rat_half())),
    );
    rat_add(f, omega)
}

/// Product of two discrete-velocity components of direction `i`; each
/// factor is the horizontal component when the flag is true, else the
/// vertical one.
pub open spec fn spec_cc(i: int, a: bool, b: bool) -> int {
    (if a {
        crate::lattice::spec_cx(i)
    } else {
        crate::lattice::spec_cy(i)
    }) * (if b {
        crate::lattice::spec_cx(i)
    } else {
        crate::lattice::spec_cy(i)
    })
}

/// The velocity-component product of direction `i`, executable.
fn cc_of(i: usize, a: bool, b: bool) -> (c: Scalar)
    requires
        i < 9,
    ensures
        c@ == rat_int(spec_cc(i as int, a, b)),
{
    let x: i64 = if a {
        if i == 1 || i == 5 || i == 8 {
            1
        } else if i == 3 || i == 6 || i == 7 {
            -1
        } else {
            0
        }
    } else {
        if i == 2 || i == 5 || i == 6 {
            1
        } else if i == 4 || i == 7 || i == 8 {
            -1
        } else {
            0
        }
    };
    let y: i64 = if b {
        if i == 1 || i == 5 || i == 8 {
            1
        } else if i == 3 || i == 6 || i == 7 {
            -1
        } else {
            0
        }
    } else {
        if i == 2 || i == 5 || i == 6 {
            1
        } else if i == 4 || i == 7 || i == 8 {
            -1
        } else {
            0
        }
    };
    proof {
        assert(-1 <= x as int * y as int <= 1) by (nonlinear_arith)
            requires
                -1 <= x as int <= 1,
                -1 <= y as int <= 1,
        {
        }
        let sx: int = if a {
            crate::lattice::spec_cx(i as int)
        } else {
            crate::lattice::spec_cy(i as int)
        };
        let sy: int = if b {
            crate::lattice::spec_cx(i as int)
        } else {
            crate::lattice::spec_cy(i as int)
        };
        assert(x as int * y as int == sx * sy) by (nonlinear_arith)
            requires
                x as int == sx,
                y as int == sy,
        {
        }
    }
    Scalar::from_int(x * y)
}

/// Partial second-moment tensor component of one cell's non-equilibrium
/// parts: the sum over the first `i` directions of `fneq c c`.
pub open spec fn reg_partial(fneq: Seq<Rat>, i: int, a: bool, b: bool) -> Rat
    decreases i,
{
    if i <= 0 {
        rat_int(0)
    } else {
        rat_add(reg_partial(fneq, i - 1, a, b), rat_mul(fneq[i - 1], rat_int(spec_cc(i - 1, a, b))))
    }
}

/// Partial tensor sums of well-formed parts are well-formed.
pub proof fn lemma_reg_partial_wf(fneq: Seq<Rat>, i: int, a: bool, b: bool)
    requires
        forall|j: int| 0 <= j < fneq.len() ==> rat_wf(#[trigger] fneq[j]),
        i <= fneq.len(),
    ensures
        rat_wf(reg_partial(fneq, i, a, b)),
    decreases i,
{
    if i > 0 {
        lemma_reg_partial_wf(fneq, i - 1, a, b);
        lemma_rat_op_wf(fneq[i - 1], rat_int(spec_cc(i - 1, a, b)));
        lemma_rat_op_wf(
            reg_partial(fneq, i - 1, a, b),
            rat_mul(fneq[i - 1], rat_int(spec_cc(i - 1, a, b))));
    }
}

/// Post-collision population of the regularized projection at one cell:
/// the equilibrium plus the filtered non-equilibrium part rebuilt from
/// the deviatoric stress tensor `p..` through the tensors
/// `Q = c (x) c - cs2 I` and the factor `w/(2 cs2^2)`.
pub open spec fn reg_cell(i: int, e: Rat, pxx: Rat, pxy: Rat, pyx: Rat, pyy: Rat, cs2: Rat)
    -> Rat {
    let sf = rat_div(
        crate::lattice::spec_weight(i),
        rat_mul(rat_int(2), rat_mul(cs2, cs2)),
    );
    let qxx = rat_sub(rat_int(spec_cc(i, true, true)), cs2);
    let qxy = rat_int(spec_cc(i, true, false));
    let qyx = rat_int(spec_cc(i, false, true));
    let qyy = rat_sub(rat_int(spec_cc(i, false, false)), cs2);
    rat_add(
        rat_add(
            rat_add(
                rat_add(e, rat_mul(pxx, rat_mul(qxx, sf))),
                rat_mul(pxy, rat_mul(qxy, sf)),
            ),
            rat_mul(pyx, rat_mul(qyx, sf)),
        ),
        rat_mul(pyy, rat_mul(qyy, sf)),
    )
}

/// Apply the regularized projection: recompute each population as the
/// equilibrium plus the second-order part of its non-equilibrium
/// component.
fn apply_regularized(lattice: &D2Q9, discretization: &Discretization)
    -> (r: Result<Vec<Matrix>, Error>)
    requires
        discretization.wf(),
    ensures
        r matches Ok(v) ==> v@.len() == 9
            && (forall|i: int| 0 <= i < 9 ==> (#[trigger] v@[i]).wid()
                == lattice.spec_size().0 && v@[i].hei() == lattice.spec_size().1
                && v@[i]@.len() == lattice.n_cells())
            && (forall|i: int, k: int| 0 <= i < 9 && 0 <= k < lattice.n_cells()
                ==> rat_wf(#[trigger] v@[i]@[k]))
            && (forall|i: int, k: int| 0 <= i < 9 && 0 <= k < lattice.n_cells()
                ==> rat_eq(
                    #[trigger] v@[i]@[k],
                    reg_cell(
                        i,
                        crate::lattice::lattice_eq(*lattice, i, k,
                            spec_cs2(discretization.delta_x@, discretization.delta_t@)),
                        reg_partial(
                            crate::lattice::neq_cell(*lattice, k,
                                spec_cs2(discretization.delta_x@, discretization.delta_t@)),
                            9, true, true),
                        reg_partial(
                            crate::lattice::neq_cell(*lattice, k,
                                spec_cs2(discretization.delta_x@, discretization.delta_t@)),
                            9, true, false),
                        reg_partial(
                            crate::lattice::neq_cell(*lattice, k,
                                spec_cs2(discretization.delta_x@, discretization.delta_t@)),
                            9, false, true),
                        reg_partial(
                            crate::lattice::neq_cell(*lattice, k,
                                spec_cs2(discretization.delta_x@, discretization.delta_t@)),
                            9, false, false),
                        spec_cs2(discretization.delta_x@, discretization.delta_t@)))),
        r matches Err(e) ==> e == Error::Overflow || e == Error::DivisionByZero,
{
    proof {
        use_type_invariant(lattice);
        lattice.lemma_wf();
        use_type_invariant(discretization.delta_x);
        use_type_invariant(discretization.delta_t);
    }
    let ghost gdx = discretization.delta_x@;
    let ghost gdt = discretization.delta_t@;
    let ghost gcs2 = spec_cs2(gdx, gdt);
    let eqs = match lattice.equilibrium(discretization) {
        Ok(v) => v,
        Err(e) => {
            return Err(e);
        },
    };
    let fneqs = match lattice.non_equilibrium(discretization) {
        Ok(v) => v,
        Err(e) => {
            return Err(e);
        },
    };
    let cs2 = match discretization.isothermal_speed_of_sound_squared() {
        Ok(s) => s,
        Err(e) => {
            return Err(e);
        },
    };
    proof {
        use_type_invariant(cs2);
        crate::lattice::lemma_cs2_pos(gdx, gdt);
        lemma_rat_eq_nonzero(cs2@, gcs2);
    }
    let two = Scalar::from_int(2);
    let csq = match cs2.mul(&cs2) {
        Ok(s) => s,
        Err(e) => {
            return Err(e);
        },
    };
    let den2 = match two.mul(&csq) {
        Ok(s) => s,
        Err(e) => {
            return Err(e);
        },
    };
    proof {
        use_type_invariant(csq);
        use_type_invariant(den2);
        lemma_rewrite_mul(csq@, cs2@, cs2@, gcs2, gcs2);
        lemma_rat_op_wf(gcs2, gcs2);
        lemma_rewrite_mul(den2@, two@, csq@, rat_int(2), rat_mul(gcs2, gcs2));
        lemma_rat_op_wf(rat_int(2), rat_mul(gcs2, gcs2));
        assert(rat_mul(rat_int(2), rat_mul(gcs2, gcs2)).n != 0) by (nonlinear_arith)
            requires
                rat_mul(rat_int(2), rat_mul(gcs2, gcs2)).n == 2 * (gcs2.n * gcs2.n),
                gcs2.n > 0,
        {
        }
        lemma_rat_eq_nonzero(den2@, rat_mul(rat_int(2), rat_mul(gcs2, gcs2)));
    }
    let n: usize = lattice.population(0).len();
    let mut out: Vec<Matrix> = Vec::new();
    let mut i: usize = 0;
    while i < 9
        invariant
            lattice.inv(),
            discretization.wf(),
            gdx == discretization.delta_x@,
            gdt == discretization.delta_t@,
            gcs2 == spec_cs2(gdx, gdt),
            rat_wf(gcs2),
            gcs2.n > 0,
            rat_eq(cs2@, gcs2),
            cs2@.n > 0,
            rat_eq(den2@, rat_mul(rat_int(2), rat_mul(gcs2, gcs2))),
            den2@.n != 0,
            rat_mul(rat_int(2), rat_mul(gcs2, gcs2)).n != 0,
            eqs@.len() == 9,
            forall|j: int| 0 <= j < 9 ==> (#[trigger] eqs@[j]).wid()
                == lattice.spec_size().0 && eqs@[j].hei() == lattice.spec_size().1
                && eqs@[j]@.len() == lattice.n_cells(),
            forall|j: int, k: int| 0 <= j < 9 && 0 <= k < lattice.n_cells()
                ==> rat_wf(#[trigger] eqs@[j]@[k]),
            forall|j: int, k: int| 0 <= j < 9 && 0 <= k < lattice.n_cells()
                ==> rat_eq(#[trigger] eqs@[j]@[k],
                    crate::lattice::lattice_eq(*lattice, j, k, gcs2)),
            forall|j: int| 0 <= j < lattice.n_cells()
                ==> crate::lattice::cell_density(#[trigger] lattice.cell(j)).n != 0,
            fneqs@.len() == 9,
            forall|j: int| 0 <= j < 9 ==> (#[trigger] fneqs@[j]).wid()
                == lattice.spec_size().0 && fneqs@[j].hei() == lattice.spec_size().1
                && fneqs@[j]@.len() == lattice.n_cells(),
            forall|j: int, k: int| 0 <= j < 9 && 0 <= k < lattice.n_cells()
                ==> rat_wf(#[trigger] fneqs@[j]@[k]),
            forall|j: int, k: int| 0 <= j < 9 && 0 <= k < lattice.n_cells()
                ==> rat_eq(#[trigger] fneqs@[j]@[k],
                    crate::lattice::neq_cell(*lattice, k, gcs2)[j]),
            n == lattice.n_cells(),
            i <= 9,
            out@.len() == i,
            forall|j: int| 0 <= j < i ==> (#[trigger] out@[j]).wid()
                == lattice.spec_size().0 && out@[j].hei() == lattice.spec_size().1
                && out@[j]@.len() == lattice.n_cells(),
            forall|j: int, k: int| 0 <= j < i && 0 <= k < lattice.n_cells()
                ==> rat_wf(#[trigger] out@[j]@[k]),
            forall|j: int, k: int| 0 <= j < i && 0 <= k < lattice.n_cells()
                ==> rat_eq(
                    #[trigger] out@[j]@[k],
                    reg_cell(
                        j,
                        crate::lattice::lattice_eq(*lattice, j, k, gcs2),
                        reg_partial(crate::lattice::neq_cell(*lattice, k, gcs2), 9, true, true),
                        reg_partial(crate::lattice::neq_cell(*lattice, k, gcs2), 9, true, false),
                        reg_partial(crate::lattice::neq_cell(*lattice, k, gcs2), 9, false, true),
                        reg_partial(crate::lattice::neq_cell(*lattice, k, gcs2), 9, false, false),
                        gcs2)),
        decreases 9 - i,
    {
        let w = crate::lattice::weight_of(i);
        let sf = match w.div(&den2) {
            Ok(s) => s,
            Err(e) => {
                return Err(e);
            },
        };
        let ghost gsf = rat_div(crate::lattice::spec_weight(i as int),
            rat_mul(rat_int(2), rat_mul(gcs2, gcs2)));
        let qxx_c = cc_of(i, true, true);
        let qxx = match qxx_c.sub(&cs2) {
            Ok(s) => s,
            Err(e) => {
                return Err(e);
            },
        };
        let qxy = cc_of(i, true, false);
        let qyx = cc_of(i, false, true);
        let qyy_c = cc_of(i, false, false);
        let qyy = match qyy_c.sub(&cs2) {
            Ok(s) => s,
            Err(e) => {
                return Err(e);
            },
        };
        let fxx = match qxx.mul(&sf) {
            Ok(s) => s,
            Err(e) => {
                return Err(e);
            },
        };
        let fxy = match qxy.mul(&sf) {
            Ok(s) => s,
            Err(e) => {
                return Err(e);
            },
        };
        let fyx = match qyx.mul(&sf) {
            Ok(s) => s,
            Err(e) => {
                return Err(e);
            },
        };
        let fyy = match qyy.mul(&sf) {
            Ok(s) => s,
            Err(e) => {
                return Err(e);
            },
        };
        let ghost gqxx = rat_sub(rat_int(spec_cc(i as int, true, true)), gcs2);
        let ghost gqyy = rat_sub(rat_int(spec_cc(i as int, false, false)), gcs2);
        proof {
            use_type_invariant(w);
            use_type_invariant(sf);
            use_type_invariant(qxx);
            use_type_invariant(qyy);
            use_type_invariant(fxx);
            use_type_invariant(fxy);
            use_type_invariant(fyx);
            use_type_invariant(fyy);
            use_type_invariant(den2);
            use_type_invariant(cs2);
            lemma_rat_op_wf(gcs2, gcs2);
            lemma_rat_op_wf(rat_int(2), rat_mul(gcs2, gcs2));
            lemma_rewrite_div(
                sf@, w@, den2@, crate::lattice::spec_weight(i as int),
                rat_mul(rat_int(2), rat_mul(gcs2, gcs2)));
            lemma_rat_op_wf(
                crate::lattice::spec_weight(i as int),
                rat_mul(rat_int(2), rat_mul(gcs2, gcs2)));
            lemma_rewrite_sub(
                qxx@, qxx_c@, cs2@, rat_int(spec_cc(i as int, true, true)), gcs2);
            lemma_rewrite_sub(
                qyy@, qyy_c@, cs2@, rat_int(spec_cc(i as int, false, false)), gcs2);
            lemma_rat_op_wf(rat_int(spec_cc(i as int, true, true)), gcs2);
            lemma_rat_op_wf(rat_int(spec_cc(i as int, false, false)), gcs2);
            lemma_rewrite_mul(fxx@, qxx@, sf@, gqxx, gsf);
            lemma_rewrite_mul(fxy@, qxy@, sf@, rat_int(spec_cc(i as int, true, false)), gsf);
            lemma_rewrite_mul(fyx@, qyx@, sf@, rat_int(spec_cc(i as int, false, true)), gsf);
            lemma_rewrite_mul(fyy@, qyy@, sf@, gqyy, gsf);
            lemma_rat_op_wf(gqxx, gsf);
            lemma_rat_op_wf(rat_int(spec_cc(i as int, true, false)), gsf);
            lemma_rat_op_wf(rat_int(spec_cc(i as int, false, true)), gsf);
            lemma_rat_op_wf(gqyy, gsf);
        }
        let eqm = &eqs[i];
        proof {
            use_type_invariant(eqm);
            eqm.lemma_cells_wf();
        }
        let mut cells: Vec<Scalar> = Vec::new();
        let mut k: usize = 0;
        while k < n
            invariant
                lattice.inv(),
                discretization.wf(),
                gdx == discretization.delta_x@,
                gdt == discretization.delta_t@,
                gcs2 == spec_cs2(gdx, gdt),
                rat_wf(gcs2),
                gcs2.n > 0,
                i < 9,
                n == lattice.n_cells(),
                eqm@ == eqs@[i as int]@,
                eqm@.len() == n,
                forall|j: int| 0 <= j < n ==> rat_wf(#[trigger] eqm@[j]),
                forall|j: int| 0 <= j < n ==> rat_eq(#[trigger] eqm@[j],
                    crate::lattice::lattice_eq(*lattice, i as int, j, gcs2)),
                forall|j: int| 0 <= j < lattice.n_cells()
                    ==> crate::lattice::cell_density(#[trigger] lattice.cell(j)).n != 0,
                fneqs@.len() == 9,
                forall|j: int| 0 <= j < 9 ==> (#[trigger] fneqs@[j]).wid()
                    == lattice.spec_size().0 && fneqs@[j].hei() == lattice.spec_size().1
                    && fneqs@[j]@.len() == lattice.n_cells(),
                forall|j: int, k2: int| 0 <= j < 9 && 0 <= k2 < lattice.n_cells()
                    ==> rat_wf(#[trigger] fneqs@[j]@[k2]),
                forall|j: int, k2: int| 0 <= j < 9 && 0 <= k2 < lattice.n_cells()
                    ==> rat_eq(#[trigger] fneqs@[j]@[k2],
                        crate::lattice::neq_cell(*lattice, k2, gcs2)[j]),
                rat_wf(gsf),
                gqxx == rat_sub(rat_int(spec_cc(i as int, true, true)), gcs2),
                gqyy == rat_sub(rat_int(spec_cc(i as int, false, false)), gcs2),
                gsf == rat_div(crate::lattice::spec_weight(i as int),
                    rat_mul(rat_int(2), rat_mul(gcs2, gcs2))),
                rat_eq(fxx@, rat_mul(gqxx, gsf)),
                rat_eq(fxy@, rat_mul(rat_int(spec_cc(i as int, true, false)), gsf)),
                rat_eq(fyx@, rat_mul(rat_int(spec_cc(i as int, false, true)), gsf)),
                rat_eq(fyy@, rat_mul(gqyy, gsf)),
                k <= n,
                cells@.len() == k,
                forall|j: int| 0 <= j < k
                    ==> rat_eq(
                        (#[trigger] cells@[j])@,
                        reg_cell(
                            i as int,
                            crate::lattice::lattice_eq(*lattice, i as int, j, gcs2),
                            reg_partial(crate::lattice::neq_cell(*lattice, j, gcs2), 9,
                                true, true),
                            reg_partial(crate::lattice::neq_cell(*lattice, j, gcs2), 9,
                                true, false),
                            reg_partial(crate::lattice::neq_cell(*lattice, j, gcs2), 9,
                                false, true),
                            reg_partial(crate::lattice::neq_cell(*lattice, j, gcs2), 9,
                                false, false),
                            gcs2)),
            decreases n - k,
        {
            let ghost gneq = crate::lattice::neq_cell(*lattice, k as int, gcs2);
            // accumulate the four tensor components over the directions
            let mut pxx = Scalar::zero();
            let mut pxy = Scalar::zero();
            let mut pyx = Scalar::zero();
            let mut pyy = Scalar::zero();
            let mut j: usize = 0;
            proof {
                use_type_invariant(discretization.delta_x);
                use_type_invariant(discretization.delta_t);
                crate::lattice::lemma_neq_cell_wf(*lattice, k as int, gdx, gdt);
            }
            while j < 9
                invariant
                    lattice.inv(),
                    k < n,
                    n == lattice.n_cells(),
                    gneq == crate::lattice::neq_cell(*lattice, k as int, gcs2),
                    forall|j2: int| 0 <= j2 < 9 ==> rat_wf(#[trigger] gneq[j2]),
                    fneqs@.len() == 9,
                    forall|j2: int| 0 <= j2 < 9 ==> (#[trigger] fneqs@[j2])@.len()
                        == lattice.n_cells(),
                    forall|j2: int, k2: int| 0 <= j2 < 9 && 0 <= k2 < lattice.n_cells()
                        ==> rat_wf(#[trigger] fneqs@[j2]@[k2]),
                    forall|j2: int, k2: int| 0 <= j2 < 9 && 0 <= k2 < lattice.n_cells()
                        ==> rat_eq(#[trigger] fneqs@[j2]@[k2],
                            crate::lattice::neq_cell(*lattice, k2, gcs2)[j2]),
                    j <= 9,
                    rat_eq(pxx@, reg_partial(gneq, j as int, true, true)),
                    rat_eq(pxy@, reg_partial(gneq, j as int, true, false)),
                    rat_eq(pyx@, reg_partial(gneq, j as int, false, true)),
                    rat_eq(pyy@, reg_partial(gneq, j as int, false, false)),
                decreases 9 - j,
            {
                let fval = fneqs[j].at(k);
                let cxx = cc_of(j, true, true);
                let cxy = cc_of(j, true, false);
                let cyx = cc_of(j, false, true);
                let cyy = cc_of(j, false, false);
                let txx = match fval.mul(&cxx) {
                    Ok(s) => s,
                    Err(e2) => {
                        return Err(e2);
                    },
                };
                let txy = match fval.mul(&cxy) {
                    Ok(s) => s,
                    Err(e2) => {
                        return Err(e2);
                    },
                };
                let tyx = match fval.mul(&cyx) {
                    Ok(s) => s,
                    Err(e2) => {
                        return Err(e2);
                    },
                };
                let tyy = match fval.mul(&cyy) {
                    Ok(s) => s,
                    Err(e2) => {
                        return Err(e2);
                    },
                };
                let nxx = match pxx.add(&txx) {
                    Ok(s) => s,
                    Err(e2) => {
                        return Err(e2);
                    },
                };
                let nxy = match pxy.add(&txy) {
                    Ok(s) => s,
                    Err(e2) => {
                        return Err(e2);
                    },
                };
                let nyx = match pyx.add(&tyx) {
                    Ok(s) => s,
                    Err(e2) => {
                        return Err(e2);
                    },
                };
                let nyy = match pyy.add(&tyy) {
                    Ok(s) => s,
                    Err(e2) => {
                        return Err(e2);
                    },
                };
                proof {
                    use_type_invariant(fval);
                    use_type_invariant(pxx);
                    use_type_invariant(pxy);
                    use_type_invariant(pyx);
                    use_type_invariant(pyy);
                    use_type_invariant(txx);
                    use_type_invariant(txy);
                    use_type_invariant(tyx);
                    use_type_invariant(tyy);
                    use_type_invariant(nxx);
                    use_type_invariant(nxy);
                    use_type_invariant(nyx);
                    use_type_invariant(nyy);
                    lemma_reg_partial_wf(gneq, j as int, true, true);
                    lemma_reg_partial_wf(gneq, j as int, true, false);
                    lemma_reg_partial_wf(gneq, j as int, false, true);
                    lemma_reg_partial_wf(gneq, j as int, false, false);
                    lemma_rewrite_mul(
                        txx@, fval@, cxx@, gneq[j as int],
                        rat_int(spec_cc(j as int, true, true)));
                    lemma_rewrite_mul(
                        txy@, fval@, cxy@, gneq[j as int],
                        rat_int(spec_cc(j as int, true, false)));
                    lemma_rewrite_mul(
                        tyx@, fval@, cyx@, gneq[j as int],
                        rat_int(spec_cc(j as int, false, true)));
                    lemma_rewrite_mul(
                        tyy@, fval@, cyy@, gneq[j as int],
                        rat_int(spec_cc(j as int, false, false)));
                    lemma_rat_op_wf(gneq[j as int], rat_int(spec_cc(j as int, true, true)));
                    lemma_rat_op_wf(gneq[j as int], rat_int(spec_cc(j as int, true, false)));
                    lemma_rat_op_wf(gneq[j as int], rat_int(spec_cc(j as int, false, true)));
                    lemma_rat_op_wf(gneq[j as int], rat_int(spec_cc(j as int, false, false)));
                    lemma_rewrite_add(
                        nxx@, pxx@, txx@, reg_partial(gneq, j as int, true, true),
                        rat_mul(gneq[j as int], rat_int(spec_cc(j as int, true, true))));
                    lemma_rewrite_add(
                        nxy@, pxy@, txy@, reg_partial(gneq, j as int, true, false),
                        rat_mul(gneq[j as int], rat_int(spec_cc(j as int, true, false))));
                    lemma_rewrite_add(
                        nyx@, pyx@, tyx@, reg_partial(gneq, j as int, false, true),
                        rat_mul(gneq[j as int], rat_int(spec_cc(j as int, false, true))));
                    lemma_rewrite_add(
                        nyy@, pyy@, tyy@, reg_partial(gneq, j as int, false, false),
                        rat_mul(gneq[j as int], rat_int(spec_cc(j as int, false, false))));
                }
                pxx = nxx;
                pxy = nxy;
                pyx = nyx;
                pyy = nyy;
                j = j + 1;
            }
            let e = eqm.at(k);
            let t1 = match pxx.mul(&fxx) {
                Ok(s) => s,
                Err(e2) => {
                    return Err(e2);
                },
            };
            let t2 = match pxy.mul(&fxy) {
                Ok(s) => s,
                Err(e2) => {
                    return Err(e2);
                },
            };
            let t3 = match pyx.mul(&fyx) {
                Ok(s) => s,
                Err(e2) => {
                    return Err(e2);
                },
            };
            let t4 = match pyy.mul(&fyy) {
                Ok(s) => s,
                Err(e2) => {
                    return Err(e2);
                },
            };
            let a1 = match e.add(&t1) {
                Ok(s) => s,
                Err(e2) => {
                    return Err(e2);
                },
            };
            let a2 = match a1.add(&t2) {
                Ok(s) => s,
                Err(e2) => {
                    return Err(e2);
                },
            };
            let a3 = match a2.add(&t3) {
                Ok(s) => s,
                Err(e2) => {
                    return Err(e2);
                },
            };
            let res = match a3.add(&t4) {
                Ok(s) => s,
                Err(e2) => {
                    return Err(e2);
                },
            };
            proof {
                let gE = crate::lattice::lattice_eq(*lattice, i as int, k as int, gcs2);
                let gpxx = reg_partial(gneq, 9, true, true);
                let gpxy = reg_partial(gneq, 9, true, false);
                let gpyx = reg_partial(gneq, 9, false, true);
                let gpyy = reg_partial(gneq, 9, false, false);
                use_type_invariant(discretization.delta_x);
                use_type_invariant(discretization.delta_t);
                crate::lattice::lemma_lattice_eq_wf(*lattice, i as int, k as int, gdx, gdt);
                use_type_invariant(e);
                use_type_invariant(pxx);
                use_type_invariant(pxy);
                use_type_invariant(pyx);
                use_type_invariant(pyy);
                use_type_invariant(t1);
                use_type_invariant(t2);
                use_type_invariant(t3);
                use_type_invariant(t4);
                use_type_invariant(a1);
                use_type_invariant(a2);
                use_type_invariant(a3);
                use_type_invariant(res);
                lemma_reg_partial_wf(gneq, 9, true, true);
                lemma_reg_partial_wf(gneq, 9, true, false);
                lemma_reg_partial_wf(gneq, 9, false, true);
                lemma_reg_partial_wf(gneq, 9, false, false);
                use_type_invariant(fxx);
                use_type_invariant(fxy);
                use_type_invariant(fyx);
                use_type_invariant(fyy);
                lemma_rat_op_wf(rat_int(spec_cc(i as int, true, true)), gcs2);
                lemma_rat_op_wf(rat_int(spec_cc(i as int, false, false)), gcs2);
                lemma_rat_op_wf(gqxx, gsf);
                lemma_rat_op_wf(rat_int(spec_cc(i as int, true, false)), gsf);
                lemma_rat_op_wf(rat_int(spec_cc(i as int, false, true)), gsf);
                lemma_rat_op_wf(gqyy, gsf);
                lemma_rewrite_mul(t1@, pxx@, fxx@, gpxx, rat_mul(gqxx, gsf));
                lemma_rewrite_mul(
                    t2@, pxy@, fxy@, gpxy,
                    rat_mul(rat_int(spec_cc(i as int, true, false)), gsf));
                lemma_rewrite_mul(
                    t3@, pyx@, fyx@, gpyx,
                    rat_mul(rat_int(spec_cc(i as int, false, true)), gsf));
                lemma_rewrite_mul(t4@, pyy@, fyy@, gpyy, rat_mul(gqyy, gsf));
                // The target terms in reg_cell use the tensor component
                // first, the filter factor second.
                crate::scalar::lemma_rat_mul_cong(gpxx, rat_mul(gqxx, gsf), gpxx,
                    rat_mul(gqxx, gsf));
                lemma_rat_op_wf(gpxx, rat_mul(gqxx, gsf));
                lemma_rat_op_wf(gpxy, rat_mul(rat_int(spec_cc(i as int, true, false)), gsf));
                lemma_rat_op_wf(gpyx, rat_mul(rat_int(spec_cc(i as int, false, true)), gsf));
                lemma_rat_op_wf(gpyy, rat_mul(gqyy, gsf));
                lemma_rewrite_add(a1@, e@, t1@, gE, rat_mul(gpxx, rat_mul(gqxx, gsf)));
                lemma_rat_op_wf(gE, rat_mul(gpxx, rat_mul(gqxx, gsf)));
                lemma_rewrite_add(
                    a2@, a1@, t2@,
                    rat_add(gE, rat_mul(gpxx, rat_mul(gqxx, gsf))),
                    rat_mul(gpxy, rat_mul(rat_int(spec_cc(i as int, true, false)), gsf)));
                lemma_rat_op_wf(
                    rat_add(gE, rat_mul(gpxx, rat_mul(gqxx, gsf))),
                    rat_mul(gpxy, rat_mul(rat_int(spec_cc(i as int, true, false)), gsf)));
                lemma_rewrite_add(
                    a3@, a2@, t3@,
                    rat_add(
                        rat_add(gE, rat_mul(gpxx, rat_mul(gqxx, gsf))),
                        rat_mul(gpxy, rat_mul(rat_int(spec_cc(i as int, true, false)), gsf))),
                    rat_mul(gpyx, rat_mul(rat_int(spec_cc(i as int, false, true)), gsf)));
                lemma_rat_op_wf(
                    rat_add(
                        rat_add(gE, rat_mul(gpxx, rat_mul(gqxx, gsf))),
                        rat_mul(gpxy, rat_mul(rat_int(spec_cc(i as int, true, false)), gsf))),
                    rat_mul(gpyx, rat_mul(rat_int(spec_cc(i as int, false, true)), gsf)));
                lemma_rewrite_add(
                    res@, a3@, t4@,
                    rat_add(
                        rat_add(
                            rat_add(gE, rat_mul(gpxx, rat_mul(gqxx, gsf))),
                            rat_mul(gpxy,
                                rat_mul(rat_int(spec_cc(i as int, true, false)), gsf))),
                        rat_mul(gpyx, rat_mul(rat_int(spec_cc(i as int, false, true)), gsf))),
                    rat_mul(gpyy, rat_mul(gqyy, gsf)));
            }
            cells.push(res);
            k = k + 1;
        }
        proof {
            use_type_invariant(lattice);
            lattice.lemma_wf();
        }
        let m = match Matrix::new(cells, lattice.size()) {
            Ok(m) => m,
            Err(e2) => {
                proof {
                    assert(false);
                }
                return Err(e2);
            },
        };
        out.push(m);
        i = i + 1;
    }
    Ok(out)
}

/// Pseudo-pressure moment of the KBC decomposition at one cell:
/// `rho dx^2 - ux uy`.
pub open spec fn kbc_pi(rho: Rat, ux: Rat, uy: Rat, dx: Rat) -> Rat {
    rat_sub(rat_mul(rho, rat_mul(dx, dx)), rat_mul(ux, uy))
}

/// Normal-stress difference of the KBC decomposition: `uy^2 - ux^2`.
pub open spec fn kbc_n(ux: Rat, uy: Rat) -> Rat {
    rat_sub(rat_mul(uy, uy), rat_mul(ux, ux))
}

/// Stress part of the KBC decomposition for direction `i` at one cell.
pub open spec fn kbc_ds(i: int, rho: Rat, ux: Rat, uy: Rat, dx: Rat) -> Rat {
    let uv = rat_mul(ux, uy);
    let pi = kbc_pi(rho, ux, uy, dx);
    let nt = kbc_n(ux, uy);
    if i == 0 {
        rat_mul(
            rat_mul(rat_add(rat_mul(rat_mul(uv, rat_int(8)), pi), rat_mul(nt, nt)), rho),
            rat_half(),
        )
    } else if i == 1 || i == 3 {
        rat_mul(
            rat_mul(
                rat_sub(
                    rat_mul(rat_add(rat_sub(rat_mul(ux, dx), nt), rat_int(1)), nt),
                    rat_mul(
                        rat_add(rat_mul(uy, rat_mul(dx, rat_int(4))), rat_mul(uv, rat_int(8))),
                        pi,
                    ),
                ),
                rho,
            ),
            Rat { n: 1, d: 4 },
        )
    } else if i == 2 || i == 4 {
        rat_mul(
            rat_mul(
                rat_sub(
                    rat_mul(rat_add(rat_sub(rat_mul(uy, rat_neg(dx)), nt), rat_int(-1)), nt),
                    rat_mul(
                        rat_add(rat_mul(ux, rat_mul(dx, rat_int(4))), rat_mul(uv, rat_int(8))),
                        pi,
                    ),
                ),
                rho,
            ),
            Rat { n: 1, d: 4 },
        )
    } else {
        rat_mul(
            rat_mul(
                rat_add(
                    rat_mul(
                        rat_add(
                            rat_add(rat_mul(uv, rat_int(8)), rat_mul(ux, rat_mul(dx, rat_int(4)))),
                            rat_mul(rat_int(2), rat_mul(dx, dx)),
                        ),
                        pi,
                    ),
                    rat_mul(rat_sub(nt, rat_mul(rat_sub(uy, ux), dx)), nt),
                ),
                rho,
            ),
            Rat { n: 1, d: 8 },
        )
    }
}

/// Remainder part of the KBC decomposition: `f - e - ds`.
pub open spec fn kbc_dh(i: int, f: Rat, e: Rat, rho: Rat, ux: Rat, uy: Rat, dx: Rat) -> Rat {
    rat_sub(rat_sub(f, e), kbc_ds(i, rho, ux, uy, dx))
}

/// Relaxation parameter of the KBC model: `1/(2 nu/cs2 + 1)`.
pub open spec fn kbc_beta(nu: Rat, cs2: Rat) -> Rat {
    rat_div(rat_int(1), rat_add(rat_div(rat_mul(rat_int(2), nu), cs2), rat_int(1)))
}

/// Partial entropic inner products over the first `i` directions: the
/// numerator sums `ds dh/e`, the denominator sums `dh dh/e`.
pub open spec fn kbc_qpart(ds: Seq<Rat>, dh: Seq<Rat>, eq: Seq<Rat>, i: int, num: bool) -> Rat
    decreases i,
{
    if i <= 0 {
        rat_int(0)
    } else {
        rat_add(
            kbc_qpart(ds, dh, eq, i - 1, num),
            rat_div(
                rat_mul(if num { ds[i - 1] } else { dh[i - 1] }, dh[i - 1]),
                eq[i - 1],
            ),
        )
    }
}

/// Entropic correction factor; where the denominator vanishes the
/// correction is zero (the remainder part is then irrelevant).
pub open spec fn kbc_gamma(num: Rat, den: Rat, beta: Rat) -> Rat {
    if den.n == 0 {
        rat_int(0)
    } else {
        rat_neg(
            rat_add(
                rat_mul(rat_div(num, den), rat_sub(rat_int(2), rat_div(rat_int(1), beta))),
                rat_neg(rat_div(rat_int(1), beta)),
            ),
        )
    }
}

/// Post-collision population of the KBC model at one cell:
/// `f - 2 beta ds - beta gamma dh`, written as the original update
/// `f + ds (2 (-beta)) + (dh gamma)(-beta)`.
pub open spec fn kbc_out(f: Rat, ds: Rat, dh: Rat, gamma: Rat, beta: Rat) -> Rat {
    rat_add(
        f,
        rat_add(
            rat_mul(ds, rat_mul(rat_int(2), rat_neg(beta))),
            rat_mul(rat_mul(dh, gamma), rat_neg(beta)),
        ),
    )
}

/// The stress part respects value equality of the macroscopic inputs.
proof fn lemma_kbc_ds_cong(i: int, rhoa: Rat, uxa: Rat, uya: Rat, rhob: Rat, uxb: Rat,
    uyb: Rat, dx: Rat)
    requires
        rat_wf(rhoa),
        rat_wf(uxa),
        rat_wf(uya),
        rat_wf(rhob),
        rat_wf(uxb),
        rat_wf(uyb),
        rat_wf(dx),
        rat_eq(rhoa, rhob),
        rat_eq(uxa, uxb),
        rat_eq(uya, uyb),
    ensures
        rat_wf(kbc_ds(i, rhoa, uxa, uya, dx)),
        rat_wf(kbc_ds(i, rhob, uxb, uyb, dx)),
        rat_eq(kbc_ds(i, rhoa, uxa, uya, dx), kbc_ds(i, rhob, uxb, uyb, dx)),
{
    let uva = rat_mul(uxa, uya);
    let uvb = rat_mul(uxb, uyb);
    let pia = kbc_pi(rhoa, uxa, uya, dx);
    let pib = kbc_pi(rhob, uxb, uyb, dx);
    let nta = kbc_n(uxa, uya);
    let ntb = kbc_n(uxb, uyb);
    lemma_rat_op_wf(dx, dx);
    lemma_rat_op_wf(uxa, uya);
    lemma_rat_op_wf(uxb, uyb);
    lemma_rat_op_wf(rhoa, rat_mul(dx, dx));
    lemma_rat_op_wf(rhob, rat_mul(dx, dx));
    lemma_rat_op_wf(rat_mul(rhoa, rat_mul(dx, dx)), uva);
    lemma_rat_op_wf(rat_mul(rhob, rat_mul(dx, dx)), uvb);
    lemma_rat_op_wf(uya, uya);
    lemma_rat_op_wf(uyb, uyb);
    lemma_rat_op_wf(uxa, uxa);
    lemma_rat_op_wf(uxb, uxb);
    lemma_rat_op_wf(rat_mul(uya, uya), rat_mul(uxa, uxa));
    lemma_rat_op_wf(rat_mul(uyb, uyb), rat_mul(uxb, uxb));
    crate::scalar::lemma_rat_mul_cong(uxa, uya, uxb, uyb);
    crate::scalar::lemma_rat_mul_cong(rhoa, rat_mul(dx, dx), rhob, rat_mul(dx, dx));
    crate::scalar::lemma_rat_sub_cong(
        rat_mul(rhoa, rat_mul(dx, dx)), uva, rat_mul(rhob, rat_mul(dx, dx)), uvb);
    crate::scalar::lemma_rat_mul_cong(uya, uya, uyb, uyb);
    crate::scalar::lemma_rat_mul_cong(uxa, uxa, uxb, uxb);
    crate::scalar::lemma_rat_sub_cong(
        rat_mul(uya, uya), rat_mul(uxa, uxa), rat_mul(uyb, uyb), rat_mul(uxb, uxb));
    if i == 0 {
        let sa = rat_add(rat_mul(rat_mul(uva, rat_int(8)), pia), rat_mul(nta, nta));
        let sb = rat_add(rat_mul(rat_mul(uvb, rat_int(8)), pib), rat_mul(ntb, ntb));
        lemma_rat_op_wf(uva, rat_int(8));
        lemma_rat_op_wf(uvb, rat_int(8));
        lemma_rat_op_wf(rat_mul(uva, rat_int(8)), pia);
        lemma_rat_op_wf(rat_mul(uvb, rat_int(8)), pib);
        lemma_rat_op_wf(nta, nta);
        lemma_rat_op_wf(ntb, ntb);
        lemma_rat_op_wf(rat_mul(rat_mul(uva, rat_int(8)), pia), rat_mul(nta, nta));
        lemma_rat_op_wf(rat_mul(rat_mul(uvb, rat_int(8)), pib), rat_mul(ntb, ntb));
        lemma_rat_op_wf(sa, rhoa);
        lemma_rat_op_wf(sb, rhob);
        lemma_rat_op_wf(rat_mul(sa, rhoa), rat_half());
        lemma_rat_op_wf(rat_mul(sb, rhob), rat_half());
        crate::scalar::lemma_rat_mul_cong(uva, rat_int(8), uvb, rat_int(8));
        crate::scalar::lemma_rat_mul_cong(rat_mul(uva, rat_int(8)), pia,
            rat_mul(uvb, rat_int(8)), pib);
        crate::scalar::lemma_rat_mul_cong(nta, nta, ntb, ntb);
        crate::scalar::lemma_rat_add_cong(
            rat_mul(rat_mul(uva, rat_int(8)), pia), rat_mul(nta, nta),
            rat_mul(rat_mul(uvb, rat_int(8)), pib), rat_mul(ntb, ntb));
        crate::scalar::lemma_rat_mul_cong(sa, rhoa, sb, rhob);
        crate::scalar::lemma_rat_mul_cong(rat_mul(sa, rhoa), rat_half(),
            rat_mul(sb, rhob), rat_half());
    } else if i == 1 || i == 3 {
        lemma_kbc_ds13_cong(rhoa, uxa, uya, rhob, uxb, uyb, dx);
    } else if i == 2 || i == 4 {
        lemma_kbc_ds24_cong(rhoa, uxa, uya, rhob, uxb, uyb, dx);
    } else {
        lemma_kbc_ds5678_cong(rhoa, uxa, uya, rhob, uxb, uyb, dx);
    }
}

/// Congruence of the stress part for directions 1 and 3.
proof fn lemma_kbc_ds13_cong(rhoa: Rat, uxa: Rat, uya: Rat, rhob: Rat, uxb: Rat, uyb: Rat,
    dx: Rat)
    requires
        rat_wf(rhoa),
        rat_wf(uxa),
        rat_wf(uya),
        rat_wf(rhob),
        rat_wf(uxb),
        rat_wf(uyb),
        rat_wf(dx),
        rat_eq(rhoa, rhob),
        rat_eq(uxa, uxb),
        rat_eq(uya, uyb),
        rat_wf(rat_mul(uxa, uya)),
        rat_wf(rat_mul(uxb, uyb)),
        rat_wf(kbc_pi(rhoa, uxa, uya, dx)),
        rat_wf(kbc_pi(rhob, uxb, uyb, dx)),
        rat_wf(kbc_n(uxa, uya)),
        rat_wf(kbc_n(uxb, uyb)),
        rat_eq(rat_mul(uxa, uya), rat_mul(uxb, uyb)),
        rat_eq(kbc_pi(rhoa, uxa, uya, dx), kbc_pi(rhob, uxb, uyb, dx)),
        rat_eq(kbc_n(uxa, uya), kbc_n(uxb, uyb)),
    ensures
        rat_wf(kbc_ds(1, rhoa, uxa, uya, dx)),
        rat_wf(kbc_ds(1, rhob, uxb, uyb, dx)),
        rat_eq(kbc_ds(1, rhoa, uxa, uya, dx), kbc_ds(1, rhob, uxb, uyb, dx)),
        kbc_ds(3, rhoa, uxa, uya, dx) == kbc_ds(1, rhoa, uxa, uya, dx),
        kbc_ds(3, rhob, uxb, uyb, dx) == kbc_ds(1, rhob, uxb, uyb, dx),
{
    let uva = rat_mul(uxa, uya);
    let uvb = rat_mul(uxb, uyb);
    let pia = kbc_pi(rhoa, uxa, uya, dx);
    let pib = kbc_pi(rhob, uxb, uyb, dx);
    let nta = kbc_n(uxa, uya);
    let ntb = kbc_n(uxb, uyb);
    let fa = rat_add(rat_sub(rat_mul(uxa, dx), nta), rat_int(1));
    let fb = rat_add(rat_sub(rat_mul(uxb, dx), ntb), rat_int(1));
    let ga = rat_add(rat_mul(uya, rat_mul(dx, rat_int(4))), rat_mul(uva, rat_int(8)));
    let gb = rat_add(rat_mul(uyb, rat_mul(dx, rat_int(4))), rat_mul(uvb, rat_int(8)));
    let sa = rat_sub(rat_mul(fa, nta), rat_mul(ga, pia));
    let sb = rat_sub(rat_mul(fb, ntb), rat_mul(gb, pib));
    lemma_rat_op_wf(uxa, dx);
    lemma_rat_op_wf(uxb, dx);
    lemma_rat_op_wf(rat_mul(uxa, dx), nta);
    lemma_rat_op_wf(rat_mul(uxb, dx), ntb);
    lemma_rat_op_wf(rat_sub(rat_mul(uxa, dx), nta), rat_int(1));
    lemma_rat_op_wf(rat_sub(rat_mul(uxb, dx), ntb), rat_int(1));
    lemma_rat_op_wf(dx, rat_int(4));
    lemma_rat_op_wf(uya, rat_mul(dx, rat_int(4)));
    lemma_rat_op_wf(uyb, rat_mul(dx, rat_int(4)));
    lemma_rat_op_wf(uva, rat_int(8));
    lemma_rat_op_wf(uvb, rat_int(8));
    lemma_rat_op_wf(rat_mul(uya, rat_mul(dx, rat_int(4))), rat_mul(uva, rat_int(8)));
    lemma_rat_op_wf(rat_mul(uyb, rat_mul(dx, rat_int(4))), rat_mul(uvb, rat_int(8)));
    lemma_rat_op_wf(fa, nta);
    lemma_rat_op_wf(fb, ntb);
    lemma_rat_op_wf(ga, pia);
    lemma_rat_op_wf(gb, pib);
    lemma_rat_op_wf(rat_mul(fa, nta), rat_mul(ga, pia));
    lemma_rat_op_wf(rat_mul(fb, ntb), rat_mul(gb, pib));
    lemma_rat_op_wf(sa, rhoa);
    lemma_rat_op_wf(sb, rhob);
    lemma_rat_op_wf(rat_mul(sa, rhoa), Rat { n: 1, d: 4 });
    lemma_rat_op_wf(rat_mul(sb, rhob), Rat { n: 1, d: 4 });
    crate::scalar::lemma_rat_mul_cong(uxa, dx, uxb, dx);
    crate::scalar::lemma_rat_sub_cong(rat_mul(uxa, dx), nta, rat_mul(uxb, dx), ntb);
    crate::scalar::lemma_rat_add_cong(
        rat_sub(rat_mul(uxa, dx), nta), rat_int(1),
        rat_sub(rat_mul(uxb, dx), ntb), rat_int(1));
    crate::scalar::lemma_rat_mul_cong(uya, rat_mul(dx, rat_int(4)), uyb, rat_mul(dx, rat_int(4)));
    crate::scalar::lemma_rat_mul_cong(uva, rat_int(8), uvb, rat_int(8));
    crate::scalar::lemma_rat_add_cong(
        rat_mul(uya, rat_mul(dx, rat_int(4))), rat_mul(uva, rat_int(8)),
        rat_mul(uyb, rat_mul(dx, rat_int(4))), rat_mul(uvb, rat_int(8)));
    crate::scalar::lemma_rat_mul_cong(fa, nta, fb, ntb);
    crate::scalar::lemma_rat_mul_cong(ga, pia, gb, pib);
    crate::scalar::lemma_rat_sub_cong(
        rat_mul(fa, nta), rat_mul(ga, pia), rat_mul(fb, ntb), rat_mul(gb, pib));
    crate::scalar::lemma_rat_mul_cong(sa, rhoa, sb, rhob);
    crate::scalar::lemma_rat_mul_cong(
        rat_mul(sa, rhoa), Rat { n: 1, d: 4 }, rat_mul(sb, rhob), Rat { n: 1, d: 4 });
}

/// Congruence of the stress part for directions 2 and 4.
proof fn lemma_kbc_ds24_cong(rhoa: Rat, uxa: Rat, uya: Rat, rhob: Rat, uxb: Rat, uyb: Rat,
    dx: Rat)
    requires
        rat_wf(rhoa),
        rat_wf(uxa),
        rat_wf(uya),
        rat_wf(rhob),
        rat_wf(uxb),
        rat_wf(uyb),
        rat_wf(dx),
        rat_eq(rhoa, rhob),
        rat_eq(uxa, uxb),
        rat_eq(uya, uyb),
        rat_wf(rat_mul(uxa, uya)),
        rat_wf(rat_mul(uxb, uyb)),
        rat_wf(kbc_pi(rhoa, uxa, uya, dx)),
        rat_wf(kbc_pi(rhob, uxb, uyb, dx)),
        rat_wf(kbc_n(uxa, uya)),
        rat_wf(kbc_n(uxb, uyb)),
        rat_eq(rat_mul(uxa, uya), rat_mul(uxb, uyb)),
        rat_eq(kbc_pi(rhoa, uxa, uya, dx), kbc_pi(rhob, uxb, uyb, dx)),
        rat_eq(kbc_n(uxa, uya), kbc_n(uxb, uyb)),
    ensures
        rat_wf(kbc_ds(2, rhoa, uxa, uya, dx)),
        rat_wf(kbc_ds(2, rhob, uxb, uyb, dx)),
        rat_eq(kbc_ds(2, rhoa, uxa, uya, dx), kbc_ds(2, rhob, uxb, uyb, dx)),
        kbc_ds(4, rhoa, uxa, uya, dx) == kbc_ds(2, rhoa, uxa, uya, dx),
        kbc_ds(4, rhob, uxb, uyb, dx) == kbc_ds(2, rhob, uxb, uyb, dx),
{
    let uva = rat_mul(uxa, uya);
    let uvb = rat_mul(uxb, uyb);
    let pia = kbc_pi(rhoa, uxa, uya, dx);
    let pib = kbc_pi(rhob, uxb, uyb, dx);
    let nta = kbc_n(uxa, uya);
    let ntb = kbc_n(uxb, uyb);
    let fa = rat_add(rat_sub(rat_mul(uya, rat_neg(dx)), nta), rat_int(-1));
    let fb = rat_add(rat_sub(rat_mul(uyb, rat_neg(dx)), ntb), rat_int(-1));
    let ga = rat_add(rat_mul(uxa, rat_mul(dx, rat_int(4))), rat_mul(uva, rat_int(8)));
    let gb = rat_add(rat_mul(uxb, rat_mul(dx, rat_int(4))), rat_mul(uvb, rat_int(8)));
    let sa = rat_sub(rat_mul(fa, nta), rat_mul(ga, pia));
    let sb = rat_sub(rat_mul(fb, ntb), rat_mul(gb, pib));
    lemma_rat_op_wf(dx, dx);
    lemma_rat_op_wf(uya, rat_neg(dx));
    lemma_rat_op_wf(uyb, rat_neg(dx));
    lemma_rat_op_wf(rat_mul(uya, rat_neg(dx)), nta);
    lemma_rat_op_wf(rat_mul(uyb, rat_neg(dx)), ntb);
    lemma_rat_op_wf(rat_sub(rat_mul(uya, rat_neg(dx)), nta), rat_int(-1));
    lemma_rat_op_wf(rat_sub(rat_mul(uyb, rat_neg(dx)), ntb), rat_int(-1));
    lemma_rat_op_wf(dx, rat_int(4));
    lemma_rat_op_wf(uxa, rat_mul(dx, rat_int(4)));
    lemma_rat_op_wf(uxb, rat_mul(dx, rat_int(4)));
    lemma_rat_op_wf(uva, rat_int(8));
    lemma_rat_op_wf(uvb, rat_int(8));
    lemma_rat_op_wf(rat_mul(uxa, rat_mul(dx, rat_int(4))), rat_mul(uva, rat_int(8)));
    lemma_rat_op_wf(rat_mul(uxb, rat_mul(dx, rat_int(4))), rat_mul(uvb, rat_int(8)));
    lemma_rat_op_wf(fa, nta);
    lemma_rat_op_wf(fb, ntb);
    lemma_rat_op_wf(ga, pia);
    lemma_rat_op_wf(gb, pib);
    lemma_rat_op_wf(rat_mul(fa, nta), rat_mul(ga, pia));
    lemma_rat_op_wf(rat_mul(fb, ntb), rat_mul(gb, pib));
    lemma_rat_op_wf(sa, rhoa);
    lemma_rat_op_wf(sb, rhob);
    lemma_rat_op_wf(rat_mul(sa, rhoa), Rat { n: 1, d: 4 });
    lemma_rat_op_wf(rat_mul(sb, rhob), Rat { n: 1, d: 4 });
    crate::scalar::lemma_rat_mul_cong(uya, rat_neg(dx), uyb, rat_neg(dx));
    crate::scalar::lemma_rat_sub_cong(
        rat_mul(uya, rat_neg(dx)), nta, rat_mul(uyb, rat_neg(dx)), ntb);
    crate::scalar::lemma_rat_add_cong(
        rat_sub(rat_mul(uya, rat_neg(dx)), nta), rat_int(-1),
        rat_sub(rat_mul(uyb, rat_neg(dx)), ntb), rat_int(-1));
    crate::scalar::lemma_rat_mul_cong(uxa, rat_mul(dx, rat_int(4)), uxb, rat_mul(dx, rat_int(4)));
    crate::scalar::lemma_rat_mul_cong(uva, rat_int(8), uvb, rat_int(8));
    crate::scalar::lemma_rat_add_cong(
        rat_mul(uxa, rat_mul(dx, rat_int(4))), rat_mul(uva, rat_int(8)),
        rat_mul(uxb, rat_mul(dx, rat_int(4))), rat_mul(uvb, rat_int(8)));
    crate::scalar::lemma_rat_mul_cong(fa, nta, fb, ntb);
    crate::scalar::lemma_rat_mul_cong(ga, pia, gb, pib);
    crate::scalar::lemma_rat_sub_cong(
        rat_mul(fa, nta), rat_mul(ga, pia), rat_mul(fb, ntb), rat_mul(gb, pib));
    crate::scalar::lemma_rat_mul_cong(sa, rhoa, sb, rhob);
    crate::scalar::lemma_rat_mul_cong(
        rat_mul(sa, rhoa), Rat { n: 1, d: 4 }, rat_mul(sb, rhob), Rat { n: 1, d: 4 });
}

/// Congruence of the stress part for the four diagonal directions.
proof fn lemma_kbc_ds5678_cong(rhoa: Rat, uxa: Rat, uya: Rat, rhob: Rat, uxb: Rat, uyb: Rat,
    dx: Rat)
    requires
        rat_wf(rhoa),
        rat_wf(uxa),
        rat_wf(uya),
        rat_wf(rhob),
        rat_wf(uxb),
        rat_wf(uyb),
        rat_wf(dx),
        rat_eq(rhoa, rhob),
        rat_eq(uxa, uxb),
        rat_eq(uya, uyb),
        rat_wf(rat_mul(uxa, uya)),
        rat_wf(rat_mul(uxb, uyb)),
        rat_wf(kbc_pi(rhoa, uxa, uya, dx)),
        rat_wf(kbc_pi(rhob, uxb, uyb, dx)),
        rat_wf(kbc_n(uxa, uya)),
        rat_wf(kbc_n(uxb, uyb)),
        rat_eq(rat_mul(uxa, uya), rat_mul(uxb, uyb)),
        rat_eq(kbc_pi(rhoa, uxa, uya, dx), kbc_pi(rhob, uxb, uyb, dx)),
        rat_eq(kbc_n(uxa, uya), kbc_n(uxb, uyb)),
    ensures
        rat_wf(kbc_ds(5, rhoa, uxa, uya, dx)),
        rat_wf(kbc_ds(5, rhob, uxb, uyb, dx)),
        rat_eq(kbc_ds(5, rhoa, uxa, uya, dx), kbc_ds(5, rhob, uxb, uyb, dx)),
        forall|i: int| 6 <= i <= 8
            ==> #[trigger] kbc_ds(i, rhoa, uxa, uya, dx) == kbc_ds(5, rhoa, uxa, uya, dx)
                && kbc_ds(i, rhob, uxb, uyb, dx) == kbc_ds(5, rhob, uxb, uyb, dx),
{
    let uva = rat_mul(uxa, uya);
    let uvb = rat_mul(uxb, uyb);
    let pia = kbc_pi(rhoa, uxa, uya, dx);
    let pib = kbc_pi(rhob, uxb, uyb, dx);
    let nta = kbc_n(uxa, uya);
    let ntb = kbc_n(uxb, uyb);
    let fa = rat_add(
        rat_add(rat_mul(uva, rat_int(8)), rat_mul(uxa, rat_mul(dx, rat_int(4)))),
        rat_mul(rat_int(2), rat_mul(dx, dx)));
    let fb = rat_add(
        rat_add(rat_mul(uvb, rat_int(8)), rat_mul(uxb, rat_mul(dx, rat_int(4)))),
        rat_mul(rat_int(2), rat_mul(dx, dx)));
    let ga = rat_sub(nta, rat_mul(rat_sub(uya, uxa), dx));
    let gb = rat_sub(ntb, rat_mul(rat_sub(uyb, uxb), dx));
    let sa = rat_add(rat_mul(fa, pia), rat_mul(ga, nta));
    let sb = rat_add(rat_mul(fb, pib), rat_mul(gb, ntb));
    lemma_rat_op_wf(dx, dx);
    lemma_rat_op_wf(dx, rat_int(4));
    lemma_rat_op_wf(uva, rat_int(8));
    lemma_rat_op_wf(uvb, rat_int(8));
    lemma_rat_op_wf(uxa, rat_mul(dx, rat_int(4)));
    lemma_rat_op_wf(uxb, rat_mul(dx, rat_int(4)));
    lemma_rat_op_wf(rat_mul(uva, rat_int(8)), rat_mul(uxa, rat_mul(dx, rat_int(4))));
    lemma_rat_op_wf(rat_mul(uvb, rat_int(8)), rat_mul(uxb, rat_mul(dx, rat_int(4))));
    lemma_rat_op_wf(rat_int(2), rat_mul(dx, dx));
    lemma_rat_op_wf(
        rat_add(rat_mul(uva, rat_int(8)), rat_mul(uxa, rat_mul(dx, rat_int(4)))),
        rat_mul(rat_int(2), rat_mul(dx, dx)));
    lemma_rat_op_wf(
        rat_add(rat_mul(uvb, rat_int(8)), rat_mul(uxb, rat_mul(dx, rat_int(4)))),
        rat_mul(rat_int(2), rat_mul(dx, dx)));
    lemma_rat_op_wf(uya, uxa);
    lemma_rat_op_wf(uyb, uxb);
    lemma_rat_op_wf(rat_sub(uya, uxa), dx);
    lemma_rat_op_wf(rat_sub(uyb, uxb), dx);
    lemma_rat_op_wf(nta, rat_mul(rat_sub(uya, uxa), dx));
    lemma_rat_op_wf(ntb, rat_mul(rat_sub(uyb, uxb), dx));
    lemma_rat_op_wf(fa, pia);
    lemma_rat_op_wf(fb, pib);
    lemma_rat_op_wf(ga, nta);
    lemma_rat_op_wf(gb, ntb);
    lemma_rat_op_wf(rat_mul(fa, pia), rat_mul(ga, nta));
    lemma_rat_op_wf(rat_mul(fb, pib), rat_mul(gb, ntb));
    lemma_rat_op_wf(sa, rhoa);
    lemma_rat_op_wf(sb, rhob);
    lemma_rat_op_wf(rat_mul(sa, rhoa), Rat { n: 1, d: 8 });
    lemma_rat_op_wf(rat_mul(sb, rhob), Rat { n: 1, d: 8 });
    crate::scalar::lemma_rat_mul_cong(uva, rat_int(8), uvb, rat_int(8));
    crate::scalar::lemma_rat_mul_cong(
        uxa, rat_mul(dx, rat_int(4)), uxb, rat_mul(dx, rat_int(4)));
    crate::scalar::lemma_rat_add_cong(
        rat_mul(uva, rat_int(8)), rat_mul(uxa, rat_mul(dx, rat_int(4))),
        rat_mul(uvb, rat_int(8)), rat_mul(uxb, rat_mul(dx, rat_int(4))));
    crate::scalar::lemma_rat_add_cong(
        rat_add(rat_mul(uva, rat_int(8)), rat_mul(uxa, rat_mul(dx, rat_int(4)))),
        rat_mul(rat_int(2), rat_mul(dx, dx)),
        rat_add(rat_mul(uvb, rat_int(8)), rat_mul(uxb, rat_mul(dx, rat_int(4)))),
        rat_mul(rat_int(2), rat_mul(dx, dx)));
    crate::scalar::lemma_rat_sub_cong(uya, uxa, uyb, uxb);
    crate::scalar::lemma_rat_mul_cong(rat_sub(uya, uxa), dx, rat_sub(uyb, uxb), dx);
    crate::scalar::lemma_rat_sub_cong(
        nta, rat_mul(rat_sub(uya, uxa), dx), ntb, rat_mul(rat_sub(uyb, uxb), dx));
    crate::scalar::lemma_rat_mul_cong(fa, pia, fb, pib);
    crate::scalar::lemma_rat_mul_cong(ga, nta, gb, ntb);
    crate::scalar::lemma_rat_add_cong(
        rat_mul(fa, pia), rat_mul(ga, nta), rat_mul(fb, pib), rat_mul(gb, ntb));
    crate::scalar::lemma_rat_mul_cong(sa, rhoa, sb, rhob);
    crate::scalar::lemma_rat_mul_cong(
        rat_mul(sa, rhoa), Rat { n: 1, d: 8 }, rat_mul(sb, rhob), Rat { n: 1, d: 8 });
}

/// The nine stress parts of cell `k`, from the lattice's own density
/// and velocity.
pub open spec fn kbc_ds_seq(l: D2Q9, k: int, dx: Rat) -> Seq<Rat> {
    Seq::new(9, |i: int| kbc_ds(
        i,
        crate::lattice::cell_density(l.cell(k)),
        crate::lattice::cell_velocity_x(l.cell(k)),
        crate::lattice::cell_velocity_y(l.cell(k)),
        dx,
    ))
}

/// The nine remainder parts of cell `k`.
pub open spec fn kbc_dh_seq(l: D2Q9, k: int, dx: Rat, cs2: Rat) -> Seq<Rat> {
    Seq::new(9, |i: int| kbc_dh(
        i,
        l.pops()[i][k],
        crate::lattice::lattice_eq(l, i, k, cs2),
        crate::lattice::cell_density(l.cell(k)),
        crate::lattice::cell_velocity_x(l.cell(k)),
        crate::lattice::cell_velocity_y(l.cell(k)),
        dx,
    ))
}

/// The nine equilibrium values of cell `k`.
pub open spec fn kbc_eq_seq(l: D2Q9, k: int, cs2: Rat) -> Seq<Rat> {
    Seq::new(9, |i: int| crate::lattice::lattice_eq(l, i, k, cs2))
}

/// The entropic correction factor of cell `k`.
pub open spec fn kbc_gamma_of(l: D2Q9, k: int, dx: Rat, cs2: Rat, nu: Rat) -> Rat {
    kbc_gamma(
        kbc_qpart(kbc_ds_seq(l, k, dx), kbc_dh_seq(l, k, dx, cs2), kbc_eq_seq(l, k, cs2), 9,
            true),
        kbc_qpart(kbc_ds_seq(l, k, dx), kbc_dh_seq(l, k, dx, cs2), kbc_eq_seq(l, k, cs2), 9,
            false),
        kbc_beta(nu, cs2),
    )
}

/// Post-collision population of the KBC model for direction `i` of cell
/// `k`.
pub open spec fn kbc_cell_out(l: D2Q9, i: int, k: int, dx: Rat, cs2: Rat, nu: Rat) -> Rat {
    kbc_out(
        l.pops()[i][k],
        kbc_ds_seq(l, k, dx)[i],
        kbc_dh_seq(l, k, dx, cs2)[i],
        kbc_gamma_of(l, k, dx, cs2, nu),
        kbc_beta(nu, cs2),
    )
}

/// The nine values of cell `k` of a bare population table, the
/// population-level twin of `D2Q9::cell`.
pub open spec fn pops_cell(p: Seq<Seq<Rat>>, k: int) -> Seq<Rat> {
    Seq::new(9, |i: int| p[i][k])
}

/// Equilibrium of direction `i` at cell `k` of a bare population
/// table, the twin of `lattice_eq`.
pub open spec fn pops_eq(p: Seq<Seq<Rat>>, i: int, k: int, cs2: Rat) -> Rat {
    crate::lattice::eq_formula(
        i,
        crate::lattice::cell_density(pops_cell(p, k)),
        crate::lattice::cell_velocity_x(pops_cell(p, k)),
        crate::lattice::cell_velocity_y(pops_cell(p, k)),
        cs2,
    )
}

/// Non-equilibrium parts of cell `k` of a bare population table, the
/// twin of `neq_cell`.
pub open spec fn pops_neq_cell(p: Seq<Seq<Rat>>, k: int, cs2: Rat) -> Seq<Rat> {
    Seq::new(9, |i: int| rat_sub(p[i][k], pops_eq(p, i, k, cs2)))
}

/// The regularized projection of a whole population table: every cell
/// of every direction replaced by `reg_cell` of that table.
pub open spec fn reg_projected(p: Seq<Seq<Rat>>, n: nat, cs2: Rat) -> Seq<Seq<Rat>> {
    Seq::new(9, |i: int| Seq::new(n, |k: int| reg_cell(
        i,
        pops_eq(p, i, k, cs2),
        reg_partial(pops_neq_cell(p, k, cs2), 9, true, true),
        reg_partial(pops_neq_cell(p, k, cs2), 9, true, false),
        reg_partial(pops_neq_cell(p, k, cs2), 9, false, true),
        reg_partial(pops_neq_cell(p, k, cs2), 9, false, false),
        cs2,
    )))
}

/// KBC entropic update over a bare population table, the twin of
/// `kbc_cell_out`.
pub open spec fn kbc_pops_out(p: Seq<Seq<Rat>>, i: int, k: int, dx: Rat, cs2: Rat, nu: Rat)
    -> Rat {
    let ds = Seq::new(9, |j: int| kbc_ds(
        j,
        crate::lattice::cell_density(pops_cell(p, k)),
        crate::lattice::cell_velocity_x(pops_cell(p, k)),
        crate::lattice::cell_velocity_y(pops_cell(p, k)),
        dx,
    ));
    let dh = Seq::new(9, |j: int| kbc_dh(
        j,
        p[j][k],
        pops_eq(p, j, k, cs2),
        crate::lattice::cell_density(pops_cell(p, k)),
        crate::lattice::cell_velocity_x(pops_cell(p, k)),
        crate::lattice::cell_velocity_y(pops_cell(p, k)),
        dx,
    ));
    let eq = Seq::new(9, |j: int| pops_eq(p, j, k, cs2));
    kbc_out(
        p[i][k],
        ds[i],
        dh[i],
        kbc_gamma(
            kbc_qpart(ds, dh, eq, 9, true),
            kbc_qpart(ds, dh, eq, 9, false),
            kbc_beta(nu, cs2),
        ),
        kbc_beta(nu, cs2),
    )
}

/// The population-level twins agree with the lattice-level spec
/// functions on a lattice's own population table.
pub proof fn lemma_pops_twins(l: D2Q9, i: int, k: int, dx: Rat, cs2: Rat, nu: Rat)
    ensures
        pops_cell(l.pops(), k) == l.cell(k),
        pops_eq(l.pops(), i, k, cs2) == crate::lattice::lattice_eq(l, i, k, cs2),
        pops_neq_cell(l.pops(), k, cs2) == crate::lattice::neq_cell(l, k, cs2),
        kbc_pops_out(l.pops(), i, k, dx, cs2, nu) == kbc_cell_out(l, i, k, dx, cs2, nu),
{
    assert(pops_cell(l.pops(), k) =~= l.cell(k));
    assert(pops_neq_cell(l.pops(), k, cs2) =~= crate::lattice::neq_cell(l, k, cs2));
    let ds = Seq::new(9, |j: int| kbc_ds(
        j,
        crate::lattice::cell_density(pops_cell(l.pops(), k)),
        crate::lattice::cell_velocity_x(pops_cell(l.pops(), k)),
        crate::lattice::cell_velocity_y(pops_cell(l.pops(), k)),
        dx,
    ));
    let dh = Seq::new(9, |j: int| kbc_dh(
        j,
        l.pops()[j][k],
        pops_eq(l.pops(), j, k, cs2),
        crate::lattice::cell_density(pops_cell(l.pops(), k)),
        crate::lattice::cell_velocity_x(pops_cell(l.pops(), k)),
        crate::lattice::cell_velocity_y(pops_cell(l.pops(), k)),
        dx,
    ));
    let eq = Seq::new(9, |j: int| pops_eq(l.pops(), j, k, cs2));
    assert(ds =~= kbc_ds_seq(l, k, dx));
    assert(dh =~= kbc_dh_seq(l, k, dx, cs2));
    assert(eq =~= kbc_eq_seq(l, k, cs2));
}

/// Partial entropic inner products of well-formed parts with nonzero
/// equilibria are well-formed.
proof fn lemma_kbc_qpart_wf(ds: Seq<Rat>, dh: Seq<Rat>, eq: Seq<Rat>, i: int, num: bool)
    requires
        forall|j: int| 0 <= j < ds.len() ==> rat_wf(#[trigger] ds[j]),
        forall|j: int| 0 <= j < dh.len() ==> rat_wf(#[trigger] dh[j]),
        forall|j: int| 0 <= j < eq.len() ==> rat_wf(#[trigger] eq[j]),
        forall|j: int| 0 <= j < eq.len() ==> (#[trigger] eq[j]).n != 0,
        i <= ds.len(),
        i <= dh.len(),
        i <= eq.len(),
    ensures
        rat_wf(kbc_qpart(ds, dh, eq, i, num)),
    decreases i,
{
    if i > 0 {
        lemma_kbc_qpart_wf(ds, dh, eq, i - 1, num);
        lemma_rat_op_wf(if num { ds[i - 1] } else { dh[i - 1] }, dh[i - 1]);
        lemma_rat_op_wf(
            rat_mul(if num { ds[i - 1] } else { dh[i - 1] }, dh[i - 1]), eq[i - 1]);
        lemma_rat_op_wf(
            kbc_qpart(ds, dh, eq, i - 1, num),
            rat_div(rat_mul(if num { ds[i - 1] } else { dh[i - 1] }, dh[i - 1]), eq[i - 1]));
    }
}

/// Entropic multirelaxation collision, specific to the D2Q9 lattice.
pub struct KBC {
    pub ks_viscosity: Scalar,
}

impl KBC {
    /// A KBC operator targeting the given kinematic shear viscosity.
    pub fn new(ks_viscosity: Scalar) -> (r: KBC)
        ensures
            r.ks_viscosity == ks_viscosity,
    {
        KBC { ks_viscosity }
    }

    /// The targeted kinematic shear viscosity, returned unchanged.
    pub fn kinematic_shear_viscosity(&self, _disc: &Discretization) -> (r: Scalar)
        ensures
            r == self.ks_viscosity,
    {
        self.ks_viscosity
    }

    /// Apply the entropic update `f - 2 beta ds - beta gamma dh` to
    /// every population.
    pub fn evaluate(&self, lattice: &D2Q9, discretization: &Discretization)
        -> (r: Result<Vec<Matrix>, Error>)
        requires
            discretization.wf(),
        ensures
            r matches Ok(v) ==> v@.len() == 9
                && (forall|i: int| 0 <= i < 9 ==> (#[trigger] v@[i]).wid()
                    == lattice.spec_size().0 && v@[i].hei() == lattice.spec_size().1
                    && v@[i]@.len() == lattice.n_cells())
                && (forall|i: int, k: int| 0 <= i < 9 && 0 <= k < lattice.n_cells()
                    ==> rat_wf(#[trigger] v@[i]@[k]))
                && (forall|i: int, k: int| 0 <= i < 9 && 0 <= k < lattice.n_cells()
                    ==> rat_eq(
                        #[trigger] v@[i]@[k],
                        kbc_cell_out(
                            *lattice, i, k, discretization.delta_x@,
                            spec_cs2(discretization.delta_x@, discretization.delta_t@),
                            self.ks_viscosity@))),
            r matches Err(e) ==> e == Error::Overflow || e == Error::DivisionByZero,
    {
        proof {
            use_type_invariant(lattice);
            lattice.lemma_wf();
            use_type_invariant(self.ks_viscosity);
            use_type_invariant(discretization.delta_x);
            use_type_invariant(discretization.delta_t);
        }
        let ghost gdx = discretization.delta_x@;
        let ghost gdt = discretization.delta_t@;
        let ghost gcs2 = spec_cs2(gdx, gdt);
        let ghost gnu = self.ks_viscosity@;
        let ghost gbeta = kbc_beta(gnu, gcs2);
        let cs2 = match discretization.isothermal_speed_of_sound_squared() {
            Ok(s) => s,
            Err(e) => {
                return Err(e);
            },
        };
        proof {
            use_type_invariant(cs2);
            crate::lattice::lemma_cs2_pos(gdx, gdt);
            lemma_rat_eq_nonzero(cs2@, gcs2);
        }
        let two = Scalar::from_int(2);
        let one = Scalar::one();
        let tn = match two.mul(&self.ks_viscosity) {
            Ok(s) => s,
            Err(e) => {
                return Err(e);
            },
        };
        let td = match tn.div(&cs2) {
            Ok(s) => s,
            Err(e) => {
                return Err(e);
            },
        };
        let inner = match td.add(&one) {
            Ok(s) => s,
            Err(e) => {
                return Err(e);
            },
        };
        let beta = match one.div(&inner) {
            Ok(s) => s,
            Err(e) => {
                return Err(e);
            },
        };
        proof {
            use_type_invariant(tn);
            use_type_invariant(td);
            use_type_invariant(inner);
            use_type_invariant(beta);
            lemma_rat_op_wf(rat_int(2), gnu);
            lemma_rewrite_div(td@, tn@, cs2@, rat_mul(rat_int(2), gnu), gcs2);
            lemma_rat_op_wf(rat_mul(rat_int(2), gnu), gcs2);
            lemma_rewrite_add(
                inner@, td@, one@, rat_div(rat_mul(rat_int(2), gnu), gcs2), rat_int(1));
            lemma_rat_op_wf(rat_div(rat_mul(rat_int(2), gnu), gcs2), rat_int(1));
            lemma_rat_eq_nonzero(
                inner@,
                rat_add(rat_div(rat_mul(rat_int(2), gnu), gcs2), rat_int(1)));
            lemma_rewrite_div(
                beta@, one@, inner@, rat_int(1),
                rat_add(rat_div(rat_mul(rat_int(2), gnu), gcs2), rat_int(1)));
            lemma_rat_op_wf(
                rat_int(1),
                rat_add(rat_div(rat_mul(rat_int(2), gnu), gcs2), rat_int(1)));
        }
        let n: usize = lattice.population(0).len();
        let mut out: Vec<Matrix> = Vec::new();
        let mut i: usize = 0;
        while i < 9
            invariant
                lattice.inv(),
                discretization.wf(),
                gdx == discretization.delta_x@,
                gdt == discretization.delta_t@,
                gcs2 == spec_cs2(gdx, gdt),
                gnu == self.ks_viscosity@,
                gbeta == kbc_beta(gnu, gcs2),
                rat_wf(gcs2),
                gcs2.n > 0,
                rat_eq(cs2@, gcs2),
                cs2@.n > 0,
                rat_wf(gbeta),
                rat_eq(beta@, gbeta),
                n == lattice.n_cells(),
                i <= 9,
                out@.len() == i,
                forall|j: int| 0 <= j < i ==> (#[trigger] out@[j]).wid()
                    == lattice.spec_size().0 && out@[j].hei() == lattice.spec_size().1
                    && out@[j]@.len() == lattice.n_cells(),
                forall|j: int, k: int| 0 <= j < i && 0 <= k < lattice.n_cells()
                    ==> rat_wf(#[trigger] out@[j]@[k]),
                forall|j: int, k: int| 0 <= j < i && 0 <= k < lattice.n_cells()
                    ==> rat_eq(
                        #[trigger] out@[j]@[k],
                        kbc_cell_out(*lattice, j, k, gdx, gcs2, gnu)),
            decreases 9 - i,
        {
            let mut cells: Vec<Scalar> = Vec::new();
            let mut k: usize = 0;
            while k < n
                invariant
                    lattice.inv(),
                    discretization.wf(),
                    gdx == discretization.delta_x@,
                    gdt == discretization.delta_t@,
                    gcs2 == spec_cs2(gdx, gdt),
                    gnu == self.ks_viscosity@,
                    gbeta == kbc_beta(gnu, gcs2),
                    rat_wf(gcs2),
                    gcs2.n > 0,
                    rat_eq(cs2@, gcs2),
                    cs2@.n > 0,
                    rat_wf(gbeta),
                    rat_eq(beta@, gbeta),
                    i < 9,
                    n == lattice.n_cells(),
                    k <= n,
                    cells@.len() == k,
                    forall|j: int| 0 <= j < k
                        ==> rat_eq(
                            (#[trigger] cells@[j])@,
                            kbc_cell_out(*lattice, i as int, j, gdx, gcs2, gnu)),
                decreases n - k,
            {
                let s = match kbc_cell(lattice, discretization, k, i, &cs2, &beta,
                    &self.ks_viscosity) {
                    Ok(s) => s,
                    Err(e) => {
                        return Err(e);
                    },
                };
                cells.push(s);
                k = k + 1;
            }
            proof {
                use_type_invariant(lattice);
                lattice.lemma_wf();
            }
            let m = match Matrix::new(cells, lattice.size()) {
                Ok(m) => m,
                Err(e2) => {
                    proof {
                        assert(false);
                    }
                    return Err(e2);
                },
            };
            out.push(m);
            i = i + 1;
        }
        Ok(out)
    }
}

/// One direction of the entropic update at one cell.
#[verifier::rlimit(100)]
fn kbc_cell(lattice: &D2Q9, discretization: &Discretization, k: usize, i: usize, cs2: &Scalar,
    beta: &Scalar, nu: &Scalar) -> (r: Result<Scalar, Error>)
    requires
        discretization.wf(),
        k < lattice.n_cells(),
        i < 9,
        rat_eq(cs2@, spec_cs2(discretization.delta_x@, discretization.delta_t@)),
        cs2@.n > 0,
        rat_wf(kbc_beta(nu@, spec_cs2(discretization.delta_x@, discretization.delta_t@))),
        rat_eq(beta@, kbc_beta(nu@, spec_cs2(discretization.delta_x@, discretization.delta_t@))),
    ensures
        r matches Ok(s) ==> rat_eq(
            s@,
            kbc_cell_out(
                *lattice, i as int, k as int, discretization.delta_x@,
                spec_cs2(discretization.delta_x@, discretization.delta_t@), nu@)),
        r matches Err(e) ==> e == Error::Overflow || e == Error::DivisionByZero,
{
    proof {
        use_type_invariant(lattice);
        lattice.lemma_wf();
        use_type_invariant(discretization.delta_x);
        use_type_invariant(discretization.delta_t);
        use_type_invariant(*cs2);
        use_type_invariant(*beta);
        use_type_invariant(*nu);
    }
    let ghost gdx = discretization.delta_x@;
    let ghost gcs2 = spec_cs2(discretization.delta_x@, discretization.delta_t@);
    let ghost gbeta = kbc_beta(nu@, gcs2);
    proof {
        crate::lattice::lemma_cs2_pos(discretization.delta_x@, discretization.delta_t@);
        lemma_rat_op_wf(rat_int(2), nu@);
        lemma_rat_op_wf(rat_mul(rat_int(2), nu@), gcs2);
        lemma_rat_op_wf(rat_div(rat_mul(rat_int(2), nu@), gcs2), rat_int(1));
        lemma_rat_op_wf(
            rat_int(1), rat_add(rat_div(rat_mul(rat_int(2), nu@), gcs2), rat_int(1)));
        assert(gbeta.n != 0);
    }
    let ghost cc = lattice.cell(k as int);
    let ghost grho = crate::lattice::cell_density(cc);
    let ghost gux = crate::lattice::cell_velocity_x(cc);
    let ghost guy = crate::lattice::cell_velocity_y(cc);
    let dxs = discretization.delta_x;
    let rho = match lattice.cell_sum(k) {
        Ok(s) => s,
        Err(e) => {
            return Err(e);
        },
    };
    let (ux, uy) = match lattice.cell_velocity(k) {
        Ok(s) => s,
        Err(e) => {
            return Err(e);
        },
    };
    proof {
        use_type_invariant(rho);
        use_type_invariant(ux);
        use_type_invariant(uy);
        crate::lattice::lemma_cell_partials_wf(cc, 9, true);
        crate::lattice::lemma_cell_partials_wf(cc, 9, false);
        lemma_rat_op_wf(crate::lattice::cell_momentum_x(cc), grho);
        lemma_rat_op_wf(crate::lattice::cell_momentum_y(cc), grho);
    }
    // shared moments of the cell
    let uv = match ux.mul(&uy) {
        Ok(s) => s,
        Err(e) => {
            return Err(e);
        },
    };
    let dx2 = match dxs.mul(&dxs) {
        Ok(s) => s,
        Err(e) => {
            return Err(e);
        },
    };
    let rt = match rho.mul(&dx2) {
        Ok(s) => s,
        Err(e) => {
            return Err(e);
        },
    };
    let pi = match rt.sub(&uv) {
        Ok(s) => s,
        Err(e) => {
            return Err(e);
        },
    };
    let uy2 = match uy.mul(&uy) {
        Ok(s) => s,
        Err(e) => {
            return Err(e);
        },
    };
    let ux2 = match ux.mul(&ux) {
        Ok(s) => s,
        Err(e) => {
            return Err(e);
        },
    };
    let nt = match uy2.sub(&ux2) {
        Ok(s) => s,
        Err(e) => {
            return Err(e);
        },
    };
    proof {
        use_type_invariant(uv);
        use_type_invariant(dx2);
        use_type_invariant(rt);
        use_type_invariant(pi);
        use_type_invariant(uy2);
        use_type_invariant(ux2);
        use_type_invariant(nt);
        lemma_rat_op_wf(gdx, gdx);
        lemma_rewrite_mul(rt@, rho@, dx2@, rho@, rat_mul(gdx, gdx));
        lemma_rat_op_wf(rho@, rat_mul(gdx, gdx));
        lemma_rewrite_sub(pi@, rt@, uv@, rat_mul(rho@, rat_mul(gdx, gdx)), uv@);
    }
    // pi@ ~ kbc_pi(rho@, ux@, uy@, gdx) and nt@ ~ kbc_n(ux@, uy@), up to
    // replacing the products by the executable views.
    proof {
        lemma_rat_op_wf(ux@, uy@);
        lemma_rat_op_wf(uy@, uy@);
        lemma_rat_op_wf(ux@, ux@);
        lemma_rewrite_sub(
            pi@, rat_mul(rho@, rat_mul(gdx, gdx)), uv@,
            rat_mul(rho@, rat_mul(gdx, gdx)), rat_mul(ux@, uy@));
        lemma_rewrite_sub(nt@, uy2@, ux2@, rat_mul(uy@, uy@), rat_mul(ux@, ux@));
    }
    let eight = Scalar::from_int(8);
    let four = Scalar::from_int(4);
    let two = Scalar::from_int(2);
    let one = Scalar::one();
    let neg_one = Scalar::from_int(-1);
    let half = Scalar::from_parts(1, 2);
    let quarter = Scalar::from_parts(1, 4);
    let eighth = Scalar::from_parts(1, 8);
    let ghost guve = rat_mul(ux@, uy@);
    let ghost gpie = kbc_pi(rho@, ux@, uy@, gdx);
    let ghost gnte = kbc_n(ux@, uy@);
    proof {
        lemma_rat_op_wf(rho@, rat_mul(gdx, gdx));
        lemma_rat_op_wf(rat_mul(rho@, rat_mul(gdx, gdx)), guve);
        lemma_rat_op_wf(rat_mul(uy@, uy@), rat_mul(ux@, ux@));
        assert(rat_eq(pi@, gpie));
        assert(rat_eq(nt@, gnte));
        assert(rat_eq(uv@, guve));
    }
    // stress parts for the four direction classes
    let a8 = match uv.mul(&eight) {
        Ok(s) => s,
        Err(e) => {
            return Err(e);
        },
    };
    let b0 = match a8.mul(&pi) {
        Ok(s) => s,
        Err(e) => {
            return Err(e);
        },
    };
    let c0 = match nt.mul(&nt) {
        Ok(s) => s,
        Err(e) => {
            return Err(e);
        },
    };
    let d0 = match b0.add(&c0) {
        Ok(s) => s,
        Err(e) => {
            return Err(e);
        },
    };
    let e0 = match d0.mul(&rho) {
        Ok(s) => s,
        Err(e) => {
            return Err(e);
        },
    };
    let ds0 = match e0.mul(&half) {
        Ok(s) => s,
        Err(e) => {
            return Err(e);
        },
    };
    proof {
        use_type_invariant(a8);
        use_type_invariant(b0);
        use_type_invariant(c0);
        use_type_invariant(d0);
        use_type_invariant(e0);
        use_type_invariant(ds0);
        lemma_rewrite_mul(a8@, uv@, eight@, guve, rat_int(8));
        lemma_rat_op_wf(guve, rat_int(8));
        lemma_rewrite_mul(b0@, a8@, pi@, rat_mul(guve, rat_int(8)), gpie);
        lemma_rat_op_wf(rat_mul(guve, rat_int(8)), gpie);
        lemma_rewrite_mul(c0@, nt@, nt@, gnte, gnte);
        lemma_rat_op_wf(gnte, gnte);
        lemma_rewrite_add(
            d0@, b0@, c0@, rat_mul(rat_mul(guve, rat_int(8)), gpie), rat_mul(gnte, gnte));
        lemma_rat_op_wf(rat_mul(rat_mul(guve, rat_int(8)), gpie), rat_mul(gnte, gnte));
        lemma_rewrite_mul(
            e0@, d0@, rho@,
            rat_add(rat_mul(rat_mul(guve, rat_int(8)), gpie), rat_mul(gnte, gnte)), rho@);
        lemma_rat_op_wf(
            rat_add(rat_mul(rat_mul(guve, rat_int(8)), gpie), rat_mul(gnte, gnte)), rho@);
        lemma_rewrite_mul(
            ds0@, e0@, half@,
            rat_mul(
                rat_add(rat_mul(rat_mul(guve, rat_int(8)), gpie), rat_mul(gnte, gnte)),
                rho@),
            rat_half());
        assert(rat_eq(ds0@, kbc_ds(0, rho@, ux@, uy@, gdx)));
        lemma_kbc_ds_cong(0, rho@, ux@, uy@, grho, gux, guy, gdx);
        lemma_rat_eq_trans(
            ds0@, kbc_ds(0, rho@, ux@, uy@, gdx), kbc_ds(0, grho, gux, guy, gdx));
    }
    // directions 1 and 3
    let t1 = match ux.mul(&dxs) {
        Ok(s) => s,
        Err(e) => {
            return Err(e);
        },
    };
    let t2 = match t1.sub(&nt) {
        Ok(s) => s,
        Err(e) => {
            return Err(e);
        },
    };
    let t3 = match t2.add(&one) {
        Ok(s) => s,
        Err(e) => {
            return Err(e);
        },
    };
    let t4 = match t3.mul(&nt) {
        Ok(s) => s,
        Err(e) => {
            return Err(e);
        },
    };
    let q4 = match dxs.mul(&four) {
        Ok(s) => s,
        Err(e) => {
            return Err(e);
        },
    };
    let t5 = match uy.mul(&q4) {
        Ok(s) => s,
        Err(e) => {
            return Err(e);
        },
    };
    let t7 = match t5.add(&a8) {
        Ok(s) => s,
        Err(e) => {
            return Err(e);
        },
    };
    let t8 = match t7.mul(&pi) {
        Ok(s) => s,
        Err(e) => {
            return Err(e);
        },
    };
    let t9 = match t4.sub(&t8) {
        Ok(s) => s,
        Err(e) => {
            return Err(e);
        },
    };
    let t10 = match t9.mul(&rho) {
        Ok(s) => s,
        Err(e) => {
            return Err(e);
        },
    };
    let ds13 = match t10.mul(&quarter) {
        Ok(s) => s,
        Err(e) => {
            return Err(e);
        },
    };
    proof {
        use_type_invariant(t1);
        use_type_invariant(t2);
        use_type_invariant(t3);
        use_type_invariant(t4);
        use_type_invariant(q4);
        use_type_invariant(t5);
        use_type_invariant(t7);
        use_type_invariant(t8);
        use_type_invariant(t9);
        use_type_invariant(t10);
        use_type_invariant(ds13);
        lemma_rat_op_wf(ux@, gdx);
        lemma_rewrite_sub(t2@, t1@, nt@, rat_mul(ux@, gdx), gnte);
        lemma_rat_op_wf(rat_mul(ux@, gdx), gnte);
        lemma_rewrite_add(
            t3@, t2@, one@, rat_sub(rat_mul(ux@, gdx), gnte), rat_int(1));
        lemma_rat_op_wf(rat_sub(rat_mul(ux@, gdx), gnte), rat_int(1));
        lemma_rewrite_mul(
            t4@, t3@, nt@,
            rat_add(rat_sub(rat_mul(ux@, gdx), gnte), rat_int(1)), gnte);
        lemma_rat_op_wf(
            rat_add(rat_sub(rat_mul(ux@, gdx), gnte), rat_int(1)), gnte);
        lemma_rat_op_wf(gdx, rat_int(4));
        lemma_rewrite_mul(t5@, uy@, q4@, uy@, rat_mul(gdx, rat_int(4)));
        lemma_rat_op_wf(uy@, rat_mul(gdx, rat_int(4)));
        lemma_rewrite_add(
            t7@, t5@, a8@,
            rat_mul(uy@, rat_mul(gdx, rat_int(4))), rat_mul(guve, rat_int(8)));
        lemma_rat_op_wf(
            rat_mul(uy@, rat_mul(gdx, rat_int(4))), rat_mul(guve, rat_int(8)));
        lemma_rewrite_mul(
            t8@, t7@, pi@,
            rat_add(rat_mul(uy@, rat_mul(gdx, rat_int(4))), rat_mul(guve, rat_int(8))),
            gpie);
        lemma_rat_op_wf(
            rat_add(rat_mul(uy@, rat_mul(gdx, rat_int(4))), rat_mul(guve, rat_int(8))),
            gpie);
        lemma_rewrite_sub(
            t9@, t4@, t8@,
            rat_mul(rat_add(rat_sub(rat_mul(ux@, gdx), gnte), rat_int(1)), gnte),
            rat_mul(
                rat_add(rat_mul(uy@, rat_mul(gdx, rat_int(4))), rat_mul(guve, rat_int(8))),
                gpie));
        lemma_rat_op_wf(
            rat_mul(rat_add(rat_sub(rat_mul(ux@, gdx), gnte), rat_int(1)), gnte),
            rat_mul(
                rat_add(rat_mul(uy@, rat_mul(gdx, rat_int(4))), rat_mul(guve, rat_int(8))),
                gpie));
        lemma_rewrite_mul(
            t10@, t9@, rho@,
            rat_sub(
                rat_mul(rat_add(rat_sub(rat_mul(ux@, gdx), gnte), rat_int(1)), gnte),
                rat_mul(
                    rat_add(rat_mul(uy@, rat_mul(gdx, rat_int(4))),
                        rat_mul(guve, rat_int(8))),
                    gpie)),
            rho@);
        lemma_rat_op_wf(
            rat_sub(
                rat_mul(rat_add(rat_sub(rat_mul(ux@, gdx), gnte), rat_int(1)), gnte),
                rat_mul(
                    rat_add(rat_mul(uy@, rat_mul(gdx, rat_int(4))),
                        rat_mul(guve, rat_int(8))),
                    gpie)),
            rho@);
        lemma_rewrite_mul(
            ds13@, t10@, quarter@,
            rat_mul(
                rat_sub(
                    rat_mul(rat_add(rat_sub(rat_mul(ux@, gdx), gnte), rat_int(1)), gnte),
                    rat_mul(
                        rat_add(rat_mul(uy@, rat_mul(gdx, rat_int(4))),
                            rat_mul(guve, rat_int(8))),
                        gpie)),
                rho@),
            Rat { n: 1, d: 4 });
        assert(rat_eq(ds13@, kbc_ds(1, rho@, ux@, uy@, gdx)));
        lemma_kbc_ds_cong(1, rho@, ux@, uy@, grho, gux, guy, gdx);
        lemma_rat_eq_trans(
            ds13@, kbc_ds(1, rho@, ux@, uy@, gdx), kbc_ds(1, grho, gux, guy, gdx));
    }
    // directions 2 and 4
    let m1 = match dxs.neg() {
        Ok(s) => s,
        Err(e) => {
            return Err(e);
        },
    };
    let s1 = match uy.mul(&m1) {
        Ok(s) => s,
        Err(e) => {
            return Err(e);
        },
    };
    let s2 = match s1.sub(&nt) {
        Ok(s) => s,
        Err(e) => {
            return Err(e);
        },
    };
    let s3 = match s2.add(&neg_one) {
        Ok(s) => s,
        Err(e) => {
            return Err(e);
        },
    };
    let s4 = match s3.mul(&nt) {
        Ok(s) => s,
        Err(e) => {
            return Err(e);
        },
    };
    let s5 = match ux.mul(&q4) {
        Ok(s) => s,
        Err(e) => {
            return Err(e);
        },
    };
    let s7 = match s5.add(&a8) {
        Ok(s) => s,
        Err(e) => {
            return Err(e);
        },
    };
    let s8 = match s7.mul(&pi) {
        Ok(s) => s,
        Err(e) => {
            return Err(e);
        },
    };
    let s9 = match s4.sub(&s8) {
        Ok(s) => s,
        Err(e) => {
            return Err(e);
        },
    };
    let s10 = match s9.mul(&rho) {
        Ok(s) => s,
        Err(e) => {
            return Err(e);
        },
    };
    let ds24 = match s10.mul(&quarter) {
        Ok(s) => s,
        Err(e) => {
            return Err(e);
        },
    };
    proof {
        use_type_invariant(m1);
        use_type_invariant(s1);
        use_type_invariant(s2);
        use_type_invariant(s3);
        use_type_invariant(s4);
        use_type_invariant(s5);
        use_type_invariant(s7);
        use_type_invariant(s8);
        use_type_invariant(s9);
        use_type_invariant(s10);
        use_type_invariant(ds24);
        lemma_rewrite_mul(s1@, uy@, m1@, uy@, rat_neg(gdx));
        lemma_rat_op_wf(uy@, rat_neg(gdx));
        lemma_rewrite_sub(s2@, s1@, nt@, rat_mul(uy@, rat_neg(gdx)), gnte);
        lemma_rat_op_wf(rat_mul(uy@, rat_neg(gdx)), gnte);
        lemma_rewrite_add(
            s3@, s2@, neg_one@, rat_sub(rat_mul(uy@, rat_neg(gdx)), gnte), rat_int(-1));
        lemma_rat_op_wf(rat_sub(rat_mul(uy@, rat_neg(gdx)), gnte), rat_int(-1));
        lemma_rewrite_mul(
            s4@, s3@, nt@,
            rat_add(rat_sub(rat_mul(uy@, rat_neg(gdx)), gnte), rat_int(-1)), gnte);
        lemma_rat_op_wf(
            rat_add(rat_sub(rat_mul(uy@, rat_neg(gdx)), gnte), rat_int(-1)), gnte);
        lemma_rewrite_mul(s5@, ux@, q4@, ux@, rat_mul(gdx, rat_int(4)));
        lemma_rat_op_wf(ux@, rat_mul(gdx, rat_int(4)));
        lemma_rewrite_add(
            s7@, s5@, a8@,
            rat_mul(ux@, rat_mul(gdx, rat_int(4))), rat_mul(guve, rat_int(8)));
        lemma_rat_op_wf(
            rat_mul(ux@, rat_mul(gdx, rat_int(4))), rat_mul(guve, rat_int(8)));
        lemma_rewrite_mul(
            s8@, s7@, pi@,
            rat_add(rat_mul(ux@, rat_mul(gdx, rat_int(4))), rat_mul(guve, rat_int(8))),
            gpie);
        lemma_rat_op_wf(
            rat_add(rat_mul(ux@, rat_mul(gdx, rat_int(4))), rat_mul(guve, rat_int(8))),
            gpie);
        lemma_rewrite_sub(
            s9@, s4@, s8@,
            rat_mul(rat_add(rat_sub(rat_mul(uy@, rat_neg(gdx)), gnte), rat_int(-1)), gnte),
            rat_mul(
                rat_add(rat_mul(ux@, rat_mul(gdx, rat_int(4))), rat_mul(guve, rat_int(8))),
                gpie));
        lemma_rat_op_wf(
            rat_mul(rat_add(rat_sub(rat_mul(uy@, rat_neg(gdx)), gnte), rat_int(-1)), gnte),
            rat_mul(
                rat_add(rat_mul(ux@, rat_mul(gdx, rat_int(4))), rat_mul(guve, rat_int(8))),
                gpie));
        lemma_rewrite_mul(
            s10@, s9@, rho@,
            rat_sub(
                rat_mul(rat_add(rat_sub(rat_mul(uy@, rat_neg(gdx)), gnte), rat_int(-1)),
                    gnte),
                rat_mul(
                    rat_add(rat_mul(ux@, rat_mul(gdx, rat_int(4))),
                        rat_mul(guve, rat_int(8))),
                    gpie)),
            rho@);
        lemma_rat_op_wf(
            rat_sub(
                rat_mul(rat_add(rat_sub(rat_mul(uy@, rat_neg(gdx)), gnte), rat_int(-1)),
                    gnte),
                rat_mul(
                    rat_add(rat_mul(ux@, rat_mul(gdx, rat_int(4))),
                        rat_mul(guve, rat_int(8))),
                    gpie)),
            rho@);
        lemma_rewrite_mul(
            ds24@, s10@, quarter@,
            rat_mul(
                rat_sub(
                    rat_mul(
                        rat_add(rat_sub(rat_mul(uy@, rat_neg(gdx)), gnte), rat_int(-1)),
                        gnte),
                    rat_mul(
                        rat_add(rat_mul(ux@, rat_mul(gdx, rat_int(4))),
                            rat_mul(guve, rat_int(8))),
                        gpie)),
                rho@),
            Rat { n: 1, d: 4 });
        assert(rat_eq(ds24@, kbc_ds(2, rho@, ux@, uy@, gdx)));
        lemma_kbc_ds_cong(2, rho@, ux@, uy@, grho, gux, guy, gdx);
        lemma_rat_eq_trans(
            ds24@, kbc_ds(2, rho@, ux@, uy@, gdx), kbc_ds(2, grho, gux, guy, gdx));
    }
    // the four diagonal directions
    let w2 = match a8.add(&s5) {
        Ok(s) => s,
        Err(e) => {
            return Err(e);
        },
    };
    let w3 = match two.mul(&dx2) {
        Ok(s) => s,
        Err(e) => {
            return Err(e);
        },
    };
    let w4 = match w2.add(&w3) {
        Ok(s) => s,
        Err(e) => {
            return Err(e);
        },
    };
    let w5 = match w4.mul(&pi) {
        Ok(s) => s,
        Err(e) => {
            return Err(e);
        },
    };
    let w6 = match uy.sub(&ux) {
        Ok(s) => s,
        Err(e) => {
            return Err(e);
        },
    };
    let w7 = match w6.mul(&dxs) {
        Ok(s) => s,
        Err(e) => {
            return Err(e);
        },
    };
    let w8 = match nt.sub(&w7) {
        Ok(s) => s,
        Err(e) => {
            return Err(e);
        },
    };
    let w9 = match w8.mul(&nt) {
        Ok(s) => s,
        Err(e) => {
            return Err(e);
        },
    };
    let w10 = match w5.add(&w9) {
        Ok(s) => s,
        Err(e) => {
            return Err(e);
        },
    };
    let w11 = match w10.mul(&rho) {
        Ok(s) => s,
        Err(e) => {
            return Err(e);
        },
    };
    let ds5678 = match w11.mul(&eighth) {
        Ok(s) => s,
        Err(e) => {
            return Err(e);
        },
    };
    proof {
        use_type_invariant(w2);
        use_type_invariant(w3);
        use_type_invariant(w4);
        use_type_invariant(w5);
        use_type_invariant(w6);
        use_type_invariant(w7);
        use_type_invariant(w8);
        use_type_invariant(w9);
        use_type_invariant(w10);
        use_type_invariant(w11);
        use_type_invariant(ds5678);
        lemma_rewrite_add(
            w2@, a8@, s5@, rat_mul(guve, rat_int(8)), rat_mul(ux@, rat_mul(gdx, rat_int(4))));
        lemma_rat_op_wf(rat_mul(guve, rat_int(8)), rat_mul(ux@, rat_mul(gdx, rat_int(4))));
        lemma_rewrite_mul(w3@, two@, dx2@, rat_int(2), rat_mul(gdx, gdx));
        lemma_rat_op_wf(rat_int(2), rat_mul(gdx, gdx));
        lemma_rewrite_add(
            w4@, w2@, w3@,
            rat_add(rat_mul(guve, rat_int(8)), rat_mul(ux@, rat_mul(gdx, rat_int(4)))),
            rat_mul(rat_int(2), rat_mul(gdx, gdx)));
        lemma_rat_op_wf(
            rat_add(rat_mul(guve, rat_int(8)), rat_mul(ux@, rat_mul(gdx, rat_int(4)))),
            rat_mul(rat_int(2), rat_mul(gdx, gdx)));
        lemma_rewrite_mul(
            w5@, w4@, pi@,
            rat_add(
                rat_add(rat_mul(guve, rat_int(8)), rat_mul(ux@, rat_mul(gdx, rat_int(4)))),
                rat_mul(rat_int(2), rat_mul(gdx, gdx))),
            gpie);
        lemma_rat_op_wf(
            rat_add(
                rat_add(rat_mul(guve, rat_int(8)), rat_mul(ux@, rat_mul(gdx, rat_int(4)))),
                rat_mul(rat_int(2), rat_mul(gdx, gdx))),
            gpie);
        lemma_rat_op_wf(uy@, ux@);
        lemma_rewrite_mul(w7@, w6@, dxs@, rat_sub(uy@, ux@), gdx);
        lemma_rat_op_wf(rat_sub(uy@, ux@), gdx);
        lemma_rewrite_sub(w8@, nt@, w7@, gnte, rat_mul(rat_sub(uy@, ux@), gdx));
        lemma_rat_op_wf(gnte, rat_mul(rat_sub(uy@, ux@), gdx));
        lemma_rewrite_mul(
            w9@, w8@, nt@, rat_sub(gnte, rat_mul(rat_sub(uy@, ux@), gdx)), gnte);
        lemma_rat_op_wf(rat_sub(gnte, rat_mul(rat_sub(uy@, ux@), gdx)), gnte);
        lemma_rewrite_add(
            w10@, w5@, w9@,
            rat_mul(
                rat_add(
                    rat_add(rat_mul(guve, rat_int(8)),
                        rat_mul(ux@, rat_mul(gdx, rat_int(4)))),
                    rat_mul(rat_int(2), rat_mul(gdx, gdx))),
                gpie),
            rat_mul(rat_sub(gnte, rat_mul(rat_sub(uy@, ux@), gdx)), gnte));
        lemma_rat_op_wf(
            rat_mul(
                rat_add(
                    rat_add(rat_mul(guve, rat_int(8)),
                        rat_mul(ux@, rat_mul(gdx, rat_int(4)))),
                    rat_mul(rat_int(2), rat_mul(gdx, gdx))),
                gpie),
            rat_mul(rat_sub(gnte, rat_mul(rat_sub(uy@, ux@), gdx)), gnte));
        lemma_rewrite_mul(
            w11@, w10@, rho@,
            rat_add(
                rat_mul(
                    rat_add(
                        rat_add(rat_mul(guve, rat_int(8)),
                            rat_mul(ux@, rat_mul(gdx, rat_int(4)))),
                        rat_mul(rat_int(2), rat_mul(gdx, gdx))),
                    gpie),
                rat_mul(rat_sub(gnte, rat_mul(rat_sub(uy@, ux@), gdx)), gnte)),
            rho@);
        lemma_rat_op_wf(
            rat_add(
                rat_mul(
                    rat_add(
                        rat_add(rat_mul(guve, rat_int(8)),
                            rat_mul(ux@, rat_mul(gdx, rat_int(4)))),
                        rat_mul(rat_int(2), rat_mul(gdx, gdx))),
                    gpie),
                rat_mul(rat_sub(gnte, rat_mul(rat_sub(uy@, ux@), gdx)), gnte)),
            rho@);
        lemma_rewrite_mul(
            ds5678@, w11@, eighth@,
            rat_mul(
                rat_add(
                    rat_mul(
                        rat_add(
                            rat_add(rat_mul(guve, rat_int(8)),
                                rat_mul(ux@, rat_mul(gdx, rat_int(4)))),
                            rat_mul(rat_int(2), rat_mul(gdx, gdx))),
                        gpie),
                    rat_mul(rat_sub(gnte, rat_mul(rat_sub(uy@, ux@), gdx)), gnte)),
                rho@),
            Rat { n: 1, d: 8 });
        assert(rat_eq(ds5678@, kbc_ds(5, rho@, ux@, uy@, gdx)));
        lemma_kbc_ds_cong(5, rho@, ux@, uy@, grho, gux, guy, gdx);
        lemma_rat_eq_trans(
            ds5678@, kbc_ds(5, rho@, ux@, uy@, gdx), kbc_ds(5, grho, gux, guy, gdx));
    }
    let ghost gds = kbc_ds_seq(*lattice, k as int, gdx);
    let ghost gdh = kbc_dh_seq(*lattice, k as int, gdx, gcs2);
    let ghost geq = kbc_eq_seq(*lattice, k as int, gcs2);
    // entropic inner products over the nine directions
    let mut num = Scalar::zero();
    let mut den = Scalar::zero();
    let mut j: usize = 0;
    while j < 9
        invariant
            lattice.inv(),
            discretization.wf(),
            gdx == discretization.delta_x@,
            gcs2 == spec_cs2(discretization.delta_x@, discretization.delta_t@),
            rat_wf(gcs2),
            gcs2.n > 0,
            rat_eq(cs2@, gcs2),
            cs2@.n > 0,
            k < lattice.n_cells(),
            cc == lattice.cell(k as int),
            grho == crate::lattice::cell_density(cc),
            gux == crate::lattice::cell_velocity_x(cc),
            guy == crate::lattice::cell_velocity_y(cc),
            grho.n != 0,
            rat_eq(rho@, grho),
            rat_eq(ux@, gux),
            rat_eq(uy@, guy),
            gds == kbc_ds_seq(*lattice, k as int, gdx),
            gdh == kbc_dh_seq(*lattice, k as int, gdx, gcs2),
            geq == kbc_eq_seq(*lattice, k as int, gcs2),
            rat_eq(ds0@, gds[0]),
            rat_eq(ds13@, kbc_ds(1, grho, gux, guy, gdx)),
            rat_eq(ds24@, kbc_ds(2, grho, gux, guy, gdx)),
            rat_eq(ds5678@, kbc_ds(5, grho, gux, guy, gdx)),
            j <= 9,
            forall|j2: int| 0 <= j2 < j ==> (#[trigger] geq[j2]).n != 0,
            forall|j2: int| 0 <= j2 < j ==> rat_wf(#[trigger] geq[j2]),
            forall|j2: int| 0 <= j2 < j ==> rat_wf(#[trigger] gds[j2]),
            forall|j2: int| 0 <= j2 < j ==> rat_wf(#[trigger] gdh[j2]),
            rat_eq(num@, kbc_qpart(gds, gdh, geq, j as int, true)),
            rat_eq(den@, kbc_qpart(gds, gdh, geq, j as int, false)),
        decreases 9 - j,
    {
        proof {
            use_type_invariant(lattice);
            lattice.lemma_wf();
            use_type_invariant(discretization.delta_x);
            use_type_invariant(discretization.delta_t);
            use_type_invariant(*cs2);
            use_type_invariant(rho);
            use_type_invariant(ux);
            use_type_invariant(uy);
            crate::lattice::lemma_cell_partials_wf(cc, 9, true);
            crate::lattice::lemma_cell_partials_wf(cc, 9, false);
            lemma_rat_op_wf(crate::lattice::cell_momentum_x(cc), grho);
            lemma_rat_op_wf(crate::lattice::cell_momentum_y(cc), grho);
        }
        let ds_j = if j == 0 {
            ds0
        } else if j == 1 || j == 3 {
            ds13
        } else if j == 2 || j == 4 {
            ds24
        } else {
            ds5678
        };
        proof {
            use_type_invariant(ds_j);
            assert(rat_eq(ds_j@, gds[j as int]));
            lemma_kbc_ds_cong(j as int, grho, gux, guy, grho, gux, guy, gdx);
        }
        let w = crate::lattice::weight_of(j);
        let cxs = crate::lattice::velocity_x_of(j);
        let cys = crate::lattice::velocity_y_of(j);
        let e_j = match crate::lattice::eq_cell(&w, &cxs, &cys, &rho, &ux, &uy, cs2) {
            Ok(s) => s,
            Err(e) => {
                return Err(e);
            },
        };
        proof {
            use_type_invariant(w);
            use_type_invariant(e_j);
            crate::lattice::lemma_eq_formula_g_cong(
                cxs@, cys@, w@, rho@, ux@, uy@, cs2@,
                crate::lattice::spec_weight(j as int), grho, gux, guy, gcs2);
            crate::lattice::lemma_eq_formula_g_wf(
                w@, cxs@, cys@, rho@, ux@, uy@, cs2@);
            crate::lattice::lemma_eq_formula_g_wf(
                crate::lattice::spec_weight(j as int), cxs@, cys@, grho, gux, guy, gcs2);
            lemma_rat_eq_trans(
                e_j@,
                crate::lattice::eq_formula_g(w@, cxs@, cys@, rho@, ux@, uy@, cs2@),
                geq[j as int]);
        }
        let f_j = lattice.population(j).at(k);
        let d1 = match f_j.sub(&e_j) {
            Ok(s) => s,
            Err(e) => {
                return Err(e);
            },
        };
        let dh_j = match d1.sub(&ds_j) {
            Ok(s) => s,
            Err(e) => {
                return Err(e);
            },
        };
        proof {
            use_type_invariant(f_j);
            use_type_invariant(d1);
            use_type_invariant(dh_j);
            assert(f_j@ == lattice.pops()[j as int][k as int]);
            lemma_rewrite_sub(d1@, f_j@, e_j@, f_j@, geq[j as int]);
            lemma_rat_op_wf(f_j@, geq[j as int]);
            lemma_rewrite_sub(
                dh_j@, d1@, ds_j@, rat_sub(f_j@, geq[j as int]), gds[j as int]);
            assert(rat_eq(dh_j@, gdh[j as int]));
            lemma_rat_op_wf(rat_sub(f_j@, geq[j as int]), gds[j as int]);
        }
        let np = match ds_j.mul(&dh_j) {
            Ok(s) => s,
            Err(e) => {
                return Err(e);
            },
        };
        let nd = match np.div(&e_j) {
            Ok(s) => s,
            Err(e) => {
                return Err(e);
            },
        };
        let dp = match dh_j.mul(&dh_j) {
            Ok(s) => s,
            Err(e) => {
                return Err(e);
            },
        };
        let dd = match dp.div(&e_j) {
            Ok(s) => s,
            Err(e) => {
                return Err(e);
            },
        };
        let num2 = match num.add(&nd) {
            Ok(s) => s,
            Err(e) => {
                return Err(e);
            },
        };
        let den2v = match den.add(&dd) {
            Ok(s) => s,
            Err(e) => {
                return Err(e);
            },
        };
        proof {
            use_type_invariant(np);
            use_type_invariant(nd);
            use_type_invariant(dp);
            use_type_invariant(dd);
            use_type_invariant(num);
            use_type_invariant(den);
            use_type_invariant(num2);
            use_type_invariant(den2v);
            lemma_rat_eq_nonzero(e_j@, geq[j as int]);
            lemma_rewrite_mul(np@, ds_j@, dh_j@, gds[j as int], gdh[j as int]);
            lemma_rat_op_wf(gds[j as int], gdh[j as int]);
            lemma_rewrite_div(
                nd@, np@, e_j@, rat_mul(gds[j as int], gdh[j as int]), geq[j as int]);
            lemma_rat_op_wf(rat_mul(gds[j as int], gdh[j as int]), geq[j as int]);
            lemma_rewrite_mul(dp@, dh_j@, dh_j@, gdh[j as int], gdh[j as int]);
            lemma_rat_op_wf(gdh[j as int], gdh[j as int]);
            lemma_rewrite_div(
                dd@, dp@, e_j@, rat_mul(gdh[j as int], gdh[j as int]), geq[j as int]);
            lemma_rat_op_wf(rat_mul(gdh[j as int], gdh[j as int]), geq[j as int]);
            lemma_kbc_qpart_wf(
                gds.take(j as int), gdh.take(j as int), geq.take(j as int), j as int, true);
            assert(kbc_qpart(gds.take(j as int), gdh.take(j as int), geq.take(j as int),
                j as int, true) == kbc_qpart(gds, gdh, geq, j as int, true)) by {
                lemma_kbc_qpart_take(gds, gdh, geq, j as int, true);
            }
            lemma_kbc_qpart_wf(
                gds.take(j as int), gdh.take(j as int), geq.take(j as int), j as int, false);
            assert(kbc_qpart(gds.take(j as int), gdh.take(j as int), geq.take(j as int),
                j as int, false) == kbc_qpart(gds, gdh, geq, j as int, false)) by {
                lemma_kbc_qpart_take(gds, gdh, geq, j as int, false);
            }
            lemma_rewrite_add(
                num2@, num@, nd@, kbc_qpart(gds, gdh, geq, j as int, true),
                rat_div(rat_mul(gds[j as int], gdh[j as int]), geq[j as int]));
            lemma_rewrite_add(
                den2v@, den@, dd@, kbc_qpart(gds, gdh, geq, j as int, false),
                rat_div(rat_mul(gdh[j as int], gdh[j as int]), geq[j as int]));
        }
        num = num2;
        den = den2v;
        j = j + 1;
    }
    // entropic correction factor, with the zero-denominator guard
    let gam = if den.is_zero() {
        Scalar::zero()
    } else {
        let q = match num.div(&den) {
            Ok(s) => s,
            Err(e) => {
                return Err(e);
            },
        };
        let binv = match one.div(beta) {
            Ok(s) => s,
            Err(e) => {
                return Err(e);
            },
        };
        let factor = match two.sub(&binv) {
            Ok(s) => s,
            Err(e) => {
                return Err(e);
            },
        };
        let x = match q.mul(&factor) {
            Ok(s) => s,
            Err(e) => {
                return Err(e);
            },
        };
        let nb = match binv.neg() {
            Ok(s) => s,
            Err(e) => {
                return Err(e);
            },
        };
        let y = match x.add(&nb) {
            Ok(s) => s,
            Err(e) => {
                return Err(e);
            },
        };
        let g = match y.neg() {
            Ok(s) => s,
            Err(e) => {
                return Err(e);
            },
        };
        proof {
            use_type_invariant(num);
            use_type_invariant(den);
            use_type_invariant(q);
            use_type_invariant(binv);
            use_type_invariant(factor);
            use_type_invariant(x);
            use_type_invariant(nb);
            use_type_invariant(y);
            use_type_invariant(g);
            use_type_invariant(*beta);
            let gnum = kbc_qpart(gds, gdh, geq, 9, true);
            let gden = kbc_qpart(gds, gdh, geq, 9, false);
            lemma_kbc_qpart_wf(gds, gdh, geq, 9, true);
            lemma_kbc_qpart_wf(gds, gdh, geq, 9, false);
            lemma_rat_eq_nonzero(den@, gden);
            lemma_rewrite_div(q@, num@, den@, gnum, gden);
            lemma_rat_op_wf(gnum, gden);
            lemma_rat_eq_nonzero(beta@, gbeta);
            lemma_rewrite_div(binv@, one@, beta@, rat_int(1), gbeta);
            lemma_rat_op_wf(rat_int(1), gbeta);
            lemma_rewrite_sub(
                factor@, two@, binv@, rat_int(2), rat_div(rat_int(1), gbeta));
            lemma_rat_op_wf(rat_int(2), rat_div(rat_int(1), gbeta));
            lemma_rewrite_mul(
                x@, q@, factor@, rat_div(gnum, gden),
                rat_sub(rat_int(2), rat_div(rat_int(1), gbeta)));
            lemma_rat_op_wf(
                rat_div(gnum, gden), rat_sub(rat_int(2), rat_div(rat_int(1), gbeta)));
            crate::scalar::lemma_rat_neg_cong(binv@, rat_div(rat_int(1), gbeta));
            lemma_rat_op_wf(rat_div(rat_int(1), gbeta), rat_div(rat_int(1), gbeta));
            lemma_rat_eq_trans(
                nb@, rat_neg(binv@), rat_neg(rat_div(rat_int(1), gbeta)));
            lemma_rewrite_add(
                y@, x@, nb@,
                rat_mul(rat_div(gnum, gden),
                    rat_sub(rat_int(2), rat_div(rat_int(1), gbeta))),
                rat_neg(rat_div(rat_int(1), gbeta)));
            lemma_rat_op_wf(
                rat_mul(rat_div(gnum, gden),
                    rat_sub(rat_int(2), rat_div(rat_int(1), gbeta))),
                rat_neg(rat_div(rat_int(1), gbeta)));
            crate::scalar::lemma_rat_neg_cong(
                y@,
                rat_add(
                    rat_mul(rat_div(gnum, gden),
                        rat_sub(rat_int(2), rat_div(rat_int(1), gbeta))),
                    rat_neg(rat_div(rat_int(1), gbeta))));
            lemma_rat_eq_trans(
                g@,
                rat_neg(y@),
                kbc_gamma(gnum, gden, gbeta));
        }
        g
    };
    let ghost ggam = kbc_gamma_of(*lattice, k as int, gdx, gcs2, nu@);
    proof {
        use_type_invariant(den);
        use_type_invariant(gam);
        let gden = kbc_qpart(gds, gdh, geq, 9, false);
        lemma_kbc_qpart_wf(gds, gdh, geq, 9, false);
        lemma_rat_eq_nonzero(den@, gden);
        assert(rat_eq(gam@, ggam));
        lemma_kbc_gamma_wf(gds, gdh, geq, gbeta);
    }
    // the selected direction and the final update
    let ds_i = if i == 0 {
        ds0
    } else if i == 1 || i == 3 {
        ds13
    } else if i == 2 || i == 4 {
        ds24
    } else {
        ds5678
    };
    let w = crate::lattice::weight_of(i);
    let cxs = crate::lattice::velocity_x_of(i);
    let cys = crate::lattice::velocity_y_of(i);
    let e_i = match crate::lattice::eq_cell(&w, &cxs, &cys, &rho, &ux, &uy, cs2) {
        Ok(s) => s,
        Err(e) => {
            return Err(e);
        },
    };
    proof {
        use_type_invariant(w);
        use_type_invariant(e_i);
        use_type_invariant(*cs2);
        use_type_invariant(rho);
        use_type_invariant(ux);
        use_type_invariant(uy);
        crate::lattice::lemma_cell_partials_wf(cc, 9, true);
        crate::lattice::lemma_cell_partials_wf(cc, 9, false);
        lemma_rat_op_wf(crate::lattice::cell_momentum_x(cc), grho);
        lemma_rat_op_wf(crate::lattice::cell_momentum_y(cc), grho);
        crate::lattice::lemma_eq_formula_g_cong(
            cxs@, cys@, w@, rho@, ux@, uy@, cs2@,
            crate::lattice::spec_weight(i as int), grho, gux, guy, gcs2);
        crate::lattice::lemma_eq_formula_g_wf(w@, cxs@, cys@, rho@, ux@, uy@, cs2@);
        crate::lattice::lemma_eq_formula_g_wf(
            crate::lattice::spec_weight(i as int), cxs@, cys@, grho, gux, guy, gcs2);
        lemma_rat_eq_trans(
            e_i@,
            crate::lattice::eq_formula_g(w@, cxs@, cys@, rho@, ux@, uy@, cs2@),
            geq[i as int]);
        assert(rat_eq(ds_i@, gds[i as int]));
        lemma_kbc_ds_cong(i as int, grho, gux, guy, grho, gux, guy, gdx);
    }
    let f_i = lattice.population(i).at(k);
    let d1 = match f_i.sub(&e_i) {
        Ok(s) => s,
        Err(e) => {
            return Err(e);
        },
    };
    let dh_i = match d1.sub(&ds_i) {
        Ok(s) => s,
        Err(e) => {
            return Err(e);
        },
    };
    let negb = match beta.neg() {
        Ok(s) => s,
        Err(e) => {
            return Err(e);
        },
    };
    let two_negb = match two.mul(&negb) {
        Ok(s) => s,
        Err(e) => {
            return Err(e);
        },
    };
    let u1 = match ds_i.mul(&two_negb) {
        Ok(s) => s,
        Err(e) => {
            return Err(e);
        },
    };
    let u2a = match dh_i.mul(&gam) {
        Ok(s) => s,
        Err(e) => {
            return Err(e);
        },
    };
    let u2b = match u2a.mul(&negb) {
        Ok(s) => s,
        Err(e) => {
            return Err(e);
        },
    };
    let om = match u1.add(&u2b) {
        Ok(s) => s,
        Err(e) => {
            return Err(e);
        },
    };
    let res = match f_i.add(&om) {
        Ok(s) => s,
        Err(e) => {
            return Err(e);
        },
    };
    proof {
        use_type_invariant(f_i);
        use_type_invariant(d1);
        use_type_invariant(dh_i);
        use_type_invariant(negb);
        use_type_invariant(two_negb);
        use_type_invariant(u1);
        use_type_invariant(u2a);
        use_type_invariant(u2b);
        use_type_invariant(om);
        use_type_invariant(res);
        use_type_invariant(*beta);
        assert(f_i@ == lattice.pops()[i as int][k as int]);
        lemma_rewrite_sub(d1@, f_i@, e_i@, f_i@, geq[i as int]);
        lemma_rat_op_wf(f_i@, geq[i as int]);
        lemma_rewrite_sub(
            dh_i@, d1@, ds_i@, rat_sub(f_i@, geq[i as int]), gds[i as int]);
        assert(rat_eq(dh_i@, gdh[i as int]));
        lemma_rat_op_wf(rat_sub(f_i@, geq[i as int]), gds[i as int]);
        crate::scalar::lemma_rat_neg_cong(beta@, gbeta);
        lemma_rat_op_wf(gbeta, gbeta);
        lemma_rat_eq_trans(negb@, rat_neg(beta@), rat_neg(gbeta));
        lemma_rewrite_mul(two_negb@, two@, negb@, rat_int(2), rat_neg(gbeta));
        lemma_rat_op_wf(rat_int(2), rat_neg(gbeta));
        lemma_rewrite_mul(
            u1@, ds_i@, two_negb@, gds[i as int], rat_mul(rat_int(2), rat_neg(gbeta)));
        lemma_rat_op_wf(gds[i as int], rat_mul(rat_int(2), rat_neg(gbeta)));
        lemma_kbc_gamma_wf(gds, gdh, geq, gbeta);
        lemma_rewrite_mul(u2a@, dh_i@, gam@, gdh[i as int], ggam);
        lemma_rat_op_wf(gdh[i as int], ggam);
        lemma_rewrite_mul(
            u2b@, u2a@, negb@, rat_mul(gdh[i as int], ggam), rat_neg(gbeta));
        lemma_rat_op_wf(rat_mul(gdh[i as int], ggam), rat_neg(gbeta));
        lemma_rewrite_add(
            om@, u1@, u2b@,
            rat_mul(gds[i as int], rat_mul(rat_int(2), rat_neg(gbeta))),
            rat_mul(rat_mul(gdh[i as int], ggam), rat_neg(gbeta)));
        lemma_rat_op_wf(
            rat_mul(gds[i as int], rat_mul(rat_int(2), rat_neg(gbeta))),
            rat_mul(rat_mul(gdh[i as int], ggam), rat_neg(gbeta)));
        lemma_rewrite_add(
            res@, f_i@, om@, f_i@,
            rat_add(
                rat_mul(gds[i as int], rat_mul(rat_int(2), rat_neg(gbeta))),
                rat_mul(rat_mul(gdh[i as int], ggam), rat_neg(gbeta))));
        assert(rat_eq(res@, kbc_cell_out(*lattice, i as int, k as int, gdx, gcs2, nu@)));
    }
    Ok(res)
}

/// Dropping unread tail entries leaves the partial inner products
/// unchanged.
proof fn lemma_kbc_qpart_take(ds: Seq<Rat>, dh: Seq<Rat>, eq: Seq<Rat>, i: int, num: bool)
    requires
        0 <= i <= ds.len(),
        i <= dh.len(),
        i <= eq.len(),
    ensures
        kbc_qpart(ds.take(i), dh.take(i), eq.take(i), i, num)
            == kbc_qpart(ds, dh, eq, i, num),
    decreases i,
{
    if i > 0 {
        assert(ds.take(i).take(i - 1) =~= ds.take(i - 1));
        assert(dh.take(i).take(i - 1) =~= dh.take(i - 1));
        assert(eq.take(i).take(i - 1) =~= eq.take(i - 1));
        lemma_kbc_qpart_take(ds, dh, eq, i - 1, num);
        lemma_kbc_qpart_take2(ds, dh, eq, i, num);
    }
}

/// Helper step: the partial sums only read entries below the bound.
proof fn lemma_kbc_qpart_take2(ds: Seq<Rat>, dh: Seq<Rat>, eq: Seq<Rat>, i: int, num: bool)
    requires
        0 < i <= ds.len(),
        i <= dh.len(),
        i <= eq.len(),
        kbc_qpart(ds.take(i - 1), dh.take(i - 1), eq.take(i - 1), i - 1, num)
            == kbc_qpart(ds, dh, eq, i - 1, num),
    ensures
        kbc_qpart(ds.take(i), dh.take(i), eq.take(i), i, num)
            == kbc_qpart(ds, dh, eq, i, num),
{
    assert(ds.take(i)[i - 1] == ds[i - 1]);
    assert(dh.take(i)[i - 1] == dh[i - 1]);
    assert(eq.take(i)[i - 1] == eq[i - 1]);
    assert(ds.take(i).take(i - 1) =~= ds.take(i - 1));
    assert(dh.take(i).take(i - 1) =~= dh.take(i - 1));
    assert(eq.take(i).take(i - 1) =~= eq.take(i - 1));
    lemma_kbc_qpart_prefix(ds.take(i), dh.take(i), eq.take(i), ds.take(i - 1),
        dh.take(i - 1), eq.take(i - 1), i - 1, num);
}

/// The partial sums agree on any prefix-equal sequences.
proof fn lemma_kbc_qpart_prefix(dsa: Seq<Rat>, dha: Seq<Rat>, eqa: Seq<Rat>, dsb: Seq<Rat>,
    dhb: Seq<Rat>, eqb: Seq<Rat>, i: int, num: bool)
    requires
        0 <= i,
        forall|j: int| 0 <= j < i ==> #[trigger] dsa[j] == dsb[j],
        forall|j: int| 0 <= j < i ==> #[trigger] dha[j] == dhb[j],
        forall|j: int| 0 <= j < i ==> #[trigger] eqa[j] == eqb[j],
    ensures
        kbc_qpart(dsa, dha, eqa, i, num) == kbc_qpart(dsb, dhb, eqb, i, num),
    decreases i,
{
    if i > 0 {
        lemma_kbc_qpart_prefix(dsa, dha, eqa, dsb, dhb, eqb, i - 1, num);
    }
}

/// The correction factor is well-formed once the parts are.
proof fn lemma_kbc_gamma_wf(ds: Seq<Rat>, dh: Seq<Rat>, eq: Seq<Rat>, beta: Rat)
    requires
        forall|j: int| 0 <= j < ds.len() ==> rat_wf(#[trigger] ds[j]),
        forall|j: int| 0 <= j < dh.len() ==> rat_wf(#[trigger] dh[j]),
        forall|j: int| 0 <= j < eq.len() ==> rat_wf(#[trigger] eq[j]),
        forall|j: int| 0 <= j < eq.len() ==> (#[trigger] eq[j]).n != 0,
        9 <= ds.len(),
        9 <= dh.len(),
        9 <= eq.len(),
        rat_wf(beta),
        beta.n != 0,
    ensures
        rat_wf(kbc_gamma(
            kbc_qpart(ds, dh, eq, 9, true), kbc_qpart(ds, dh, eq, 9, false), beta)),
{
    let gnum = kbc_qpart(ds, dh, eq, 9, true);
    let gden = kbc_qpart(ds, dh, eq, 9, false);
    lemma_kbc_qpart_wf(ds, dh, eq, 9, true);
    lemma_kbc_qpart_wf(ds, dh, eq, 9, false);
    if gden.n != 0 {
        lemma_rat_op_wf(gnum, gden);
        lemma_rat_op_wf(rat_int(1), beta);
        lemma_rat_op_wf(rat_int(2), rat_div(rat_int(1), beta));
        lemma_rat_op_wf(rat_div(gnum, gden), rat_sub(rat_int(2), rat_div(rat_int(1), beta)));
        lemma_rat_op_wf(rat_div(rat_int(1), beta), rat_div(rat_int(1), beta));
        lemma_rat_op_wf(
            rat_mul(rat_div(gnum, gden), rat_sub(rat_int(2), rat_div(rat_int(1), beta))),
            rat_neg(rat_div(rat_int(1), beta)));
    }
}

/// The regularized decorator: before the wrapped operator collides, it
/// projects the non-equilibrium parts onto the second-order tensor
/// space; the viscosity is the wrapped operator's.
pub struct Regularized {
    pub underlying: Box<CollisionOperator>,
}

impl Regularized {
    /// Wrap an operator: its collision then acts on the regularized
    /// populations, and it keeps reporting the viscosity.
    pub fn new(underlying: CollisionOperator) -> (r: Regularized)
        ensures
            *r.underlying == underlying,
    {
        Regularized { underlying: Box::new(underlying) }
    }
}

/// The collision operator of a simulation: one of the four models.
pub enum CollisionOperator {
    Bgk(BGK),
    Trt(TRT),
    Kbc(KBC),
    Regularized(Regularized),
}

/// Kinematic shear viscosity encoded by an operator.
pub open spec fn spec_nu(op: CollisionOperator, dx: Rat, dt: Rat) -> Rat
    decreases op,
{
    match op {
        CollisionOperator::Bgk(b) => bgk_nu(dx, dt, b.tau@),
        CollisionOperator::Trt(t) => trt_nu(dx, dt, t.tau_plus@),
        CollisionOperator::Kbc(k) => k.ks_viscosity@,
        CollisionOperator::Regularized(r) => spec_nu(*r.underlying, dx, dt),
    }
}

/// The post-collision table `out` is what operator `op` produces from
/// the population table `p` of an `n`-cell grid: the model's
/// closed-form cell update for the three plain variants, and for the
/// regularized decorator the inner operator applied to a table that
/// holds, as values, the regularized projection of `p` (spec functions
/// cannot build a canonical representative of each projected fraction,
/// so the intermediate table is quantified and pinned by value).
pub open spec fn op_applies(op: CollisionOperator, p: Seq<Seq<Rat>>, out: Seq<Seq<Rat>>,
    n: nat, dx: Rat, dt: Rat) -> bool
    decreases op,
{
    let cs2 = spec_cs2(dx, dt);
    match op {
        CollisionOperator::Bgk(b) => forall|i: int, k: int| 0 <= i < 9 && 0 <= k < n
            ==> rat_eq(
                #[trigger] out[i][k],
                bgk_cell(p[i][k], pops_eq(p, i, k, cs2), dt, b.tau@),
            ),
        CollisionOperator::Trt(t) => forall|i: int, k: int| 0 <= i < 9 && 0 <= k < n
            ==> rat_eq(
                #[trigger] out[i][k],
                trt_cell(
                    p[i][k],
                    p[crate::lattice::opposite(i)][k],
                    pops_eq(p, i, k, cs2),
                    pops_eq(p, crate::lattice::opposite(i), k, cs2),
                    dt,
                    t.tau_plus@,
                    t.tau_minus@,
                ),
            ),
        CollisionOperator::Kbc(kb) => forall|i: int, k: int| 0 <= i < 9 && 0 <= k < n
            ==> rat_eq(
                #[trigger] out[i][k],
                kbc_pops_out(p, i, k, dx, cs2, kb.ks_viscosity@),
            ),
        CollisionOperator::Regularized(r) => exists|q: Seq<Seq<Rat>>|
            #[trigger] reg_table(q, p, n, cs2) && op_applies(*r.underlying, q, out, n, dx,
                dt),
    }
}

/// `q` holds, as values, the regularized projection of `p`.
pub open spec fn reg_table(q: Seq<Seq<Rat>>, p: Seq<Seq<Rat>>, n: nat, cs2: Rat) -> bool {
    &&& q.len() == 9
    &&& forall|i: int| 0 <= i < 9 ==> (#[trigger] q[i]).len() == n
    &&& forall|i: int, k: int| 0 <= i < 9 && 0 <= k < n
        ==> rat_eq(#[trigger] q[i][k], reg_projected(p, n, cs2)[i][k]) && rat_wf(q[i][k])
}

/// Introduction form of the decorator case of `op_applies`.
pub proof fn lemma_reg_intro(rr: Regularized, q: Seq<Seq<Rat>>, p: Seq<Seq<Rat>>,
    out: Seq<Seq<Rat>>, n: nat, dx: Rat, dt: Rat)
    requires
        reg_table(q, p, n, spec_cs2(dx, dt)),
        op_applies(*rr.underlying, q, out, n, dx, dt),
    ensures
        op_applies(CollisionOperator::Regularized(rr), p, out, n, dx, dt),
{
}

impl CollisionOperator {
    /// Compute the post-collision populations of the chosen model.  The
    /// given equilibrium must hold, as values, the lattice's own
    /// equilibrium; it feeds the BGK model directly, while the other
    /// models derive what they need from the lattice itself.  The
    /// regularized decorator first projects the populations and then
    /// lets its wrapped operator collide the projected state.
    pub fn evaluate(&self, lattice: &D2Q9, equilibrium: &Vec<Matrix>,
        discretization: &Discretization) -> (r: Result<Vec<Matrix>, Error>)
        requires
            discretization.wf(),
            equilibrium@.len() == 9,
            forall|i: int| 0 <= i < 9 ==> (#[trigger] equilibrium@[i]).wid()
                == lattice.spec_size().0 && equilibrium@[i].hei() == lattice.spec_size().1
                && equilibrium@[i]@.len() == lattice.n_cells(),
            forall|i: int, k: int| 0 <= i < 9 && 0 <= k < lattice.n_cells()
                ==> rat_wf(#[trigger] equilibrium@[i]@[k]),
            forall|i: int, k: int| 0 <= i < 9 && 0 <= k < lattice.n_cells()
                ==> rat_eq(
                    #[trigger] equilibrium@[i]@[k],
                    crate::lattice::lattice_eq(*lattice, i, k,
                        spec_cs2(discretization.delta_x@, discretization.delta_t@))),
            forall|k: int| 0 <= k < lattice.n_cells()
                ==> crate::lattice::cell_density(#[trigger] lattice.cell(k)).n != 0,
        ensures
            r matches Ok(v) ==> v@.len() == 9
                && (forall|i: int| 0 <= i < 9 ==> (#[trigger] v@[i]).wid()
                    == lattice.spec_size().0 && v@[i].hei() == lattice.spec_size().1
                    && v@[i]@.len() == lattice.n_cells())
                && (forall|i: int, k: int| 0 <= i < 9 && 0 <= k < lattice.n_cells()
                    ==> rat_wf(#[trigger] v@[i]@[k])),
            r matches Ok(v) ==> op_applies(
                *self,
                lattice.pops(),
                v@.map_values(|m: Matrix| m@),
                lattice.n_cells(),
                discretization.delta_x@,
                discretization.delta_t@,
            ),
            *self matches CollisionOperator::Bgk(b) ==> r is Ok ==> b.tau@.n != 0,
            *self matches CollisionOperator::Bgk(b)
                ==> r matches Ok(v) ==> forall|i: int, k: int| 0 <= i < 9 && 0 <= k < lattice.n_cells()
                    ==> rat_eq(
                        #[trigger] v@[i]@[k],
                        bgk_cell(
                            lattice.pops()[i][k], equilibrium@[i]@[k],
                            discretization.delta_t@, b.tau@)),
            *self matches CollisionOperator::Trt(t)
                ==> r matches Ok(v) ==> forall|i: int, k: int| 0 <= i < 9 && 0 <= k < lattice.n_cells()
                    ==> rat_eq(
                        #[trigger] v@[i]@[k],
                        trt_cell(
                            lattice.pops()[i][k],
                            lattice.pops()[crate::lattice::opposite(i)][k],
                            crate::lattice::lattice_eq(*lattice, i, k,
                                spec_cs2(discretization.delta_x@, discretization.delta_t@)),
                            crate::lattice::lattice_eq(*lattice,
                                crate::lattice::opposite(i), k,
                                spec_cs2(discretization.delta_x@, discretization.delta_t@)),
                            discretization.delta_t@, t.tau_plus@, t.tau_minus@)),
            *self matches CollisionOperator::Kbc(kb)
                ==> r matches Ok(v) ==> forall|i: int, k: int| 0 <= i < 9 && 0 <= k < lattice.n_cells()
                    ==> rat_eq(
                        #[trigger] v@[i]@[k],
                        kbc_cell_out(
                            *lattice, i, k, discretization.delta_x@,
                            spec_cs2(discretization.delta_x@, discretization.delta_t@),
                            kb.ks_viscosity@)),
            r matches Err(e) ==> e == Error::Overflow || e == Error::DivisionByZero,
        decreases *self,
    {
        let ghost gdx = discretization.delta_x@;
        let ghost gdt = discretization.delta_t@;
        let ghost gcs2 = spec_cs2(gdx, gdt);
        let ghost gp = lattice.pops();
        let ghost gn = lattice.n_cells();
        proof {
            use_type_invariant(lattice);
            lattice.lemma_wf();
            use_type_invariant(discretization.delta_x);
            use_type_invariant(discretization.delta_t);
        }
        match self {
            CollisionOperator::Bgk(b) => {
                let res = b.evaluate(lattice, equilibrium, discretization);
                proof {
                    use_type_invariant(b.tau);
                    if res is Ok {
                        let v = res->Ok_0;
                        let gout = v@.map_values(|m: Matrix| m@);
                        assert forall|i: int, k: int| 0 <= i < 9 && 0 <= k < gn
                            implies rat_eq(
                                #[trigger] gout[i][k],
                                bgk_cell(gp[i][k], pops_eq(gp, i, k, gcs2), gdt, b.tau@),
                            ) by {
                            lemma_pops_twins(*lattice, i, k, gdx, gcs2, b.tau@);
                            crate::lattice::lemma_lattice_eq_wf(*lattice, i, k, gdx, gdt);
                            lemma_bgk_cong(
                                v@[i]@[k], gp[i][k], equilibrium@[i]@[k],
                                crate::lattice::lattice_eq(*lattice, i, k, gcs2),
                                gdt, b.tau@);
                        }
                        assert(op_applies(*self, gp, gout, gn, gdx, gdt));
                    }
                }
                res
            },
            CollisionOperator::Trt(t) => {
                let res = t.evaluate(lattice, discretization);
                proof {
                    if res is Ok {
                        let v = res->Ok_0;
                        let gout = v@.map_values(|m: Matrix| m@);
                        assert forall|i: int, k: int| 0 <= i < 9 && 0 <= k < gn
                            implies rat_eq(
                                #[trigger] gout[i][k],
                                trt_cell(
                                    gp[i][k],
                                    gp[crate::lattice::opposite(i)][k],
                                    pops_eq(gp, i, k, gcs2),
                                    pops_eq(gp, crate::lattice::opposite(i), k, gcs2),
                                    gdt, t.tau_plus@, t.tau_minus@,
                                ),
                            ) by {
                            lemma_pops_twins(*lattice, i, k, gdx, gcs2, rat_int(0));
                            lemma_pops_twins(*lattice, crate::lattice::opposite(i), k,
                                gdx, gcs2, rat_int(0));
                        }
                        assert(op_applies(*self, gp, gout, gn, gdx, gdt));
                    }
                }
                res
            },
            CollisionOperator::Kbc(kb) => {
                let res = kb.evaluate(lattice, discretization);
                proof {
                    if res is Ok {
                        let v = res->Ok_0;
                        let gout = v@.map_values(|m: Matrix| m@);
                        assert forall|i: int, k: int| 0 <= i < 9 && 0 <= k < gn
                            implies rat_eq(
                                #[trigger] gout[i][k],
                                kbc_pops_out(gp, i, k, gdx, gcs2, kb.ks_viscosity@),
                            ) by {
                            lemma_pops_twins(*lattice, i, k, gdx, gcs2, kb.ks_viscosity@);
                        }
                        assert(op_applies(*self, gp, gout, gn, gdx, gdt));
                    }
                }
                res
            },
            CollisionOperator::Regularized(r) => {
                let f_reg = match apply_regularized(lattice, discretization) {
                    Ok(v) => v,
                    Err(e) => {
                        return Err(e);
                    },
                };
                let lat2 = D2Q9::new(f_reg);
                let eqs2 = match lat2.equilibrium(discretization) {
                    Ok(v) => v,
                    Err(e) => {
                        return Err(e);
                    },
                };
                proof {
                    use_type_invariant(&lat2);
                    lat2.lemma_wf();
                }
                let out = match r.underlying.evaluate(&lat2, &eqs2, discretization) {
                    Ok(v) => v,
                    Err(e) => {
                        return Err(e);
                    },
                };
                proof {
                    let gq = lat2.pops();
                    let gout = out@.map_values(|m: Matrix| m@);
                    assert forall|i: int, k: int| 0 <= i < 9 && 0 <= k < gn
                        implies rat_eq(#[trigger] gq[i][k], reg_projected(gp, gn, gcs2)[i][k])
                            && rat_wf(gq[i][k]) by {
                        lemma_pops_twins(*lattice, i, k, gdx, gcs2, rat_int(0));
                        assert(gq[i][k] == f_reg@[i]@[k]);
                    }
                    assert(reg_table(gq, gp, gn, gcs2));
                    lemma_reg_intro(*r, gq, gp, gout, gn, gdx, gdt);
                    assert(op_applies(*self, gp, gout, gn, gdx, gdt));
                }
                Ok(out)
            },
        }
    }

    /// Kinematic shear viscosity encoded by the operator's parameters.
    pub fn kinematic_shear_viscosity(&self, disc: &Discretization)
        -> (r: Result<Scalar, Error>)
        requires
            disc.wf(),
        ensures
            r matches Ok(s) ==> rat_eq(s@, spec_nu(*self, disc.delta_x@, disc.delta_t@)),
            r matches Err(e) ==> e == Error::Overflow || e == Error::DivisionByZero,
        decreases *self,
    {
        match self {
            CollisionOperator::Bgk(b) => b.kinematic_shear_viscosity(disc),
            CollisionOperator::Trt(t) => t.kinematic_shear_viscosity(disc),
            CollisionOperator::Kbc(kb) => Ok(kb.kinematic_shear_viscosity(disc)),
            CollisionOperator::Regularized(r) => r.underlying.kinematic_shear_viscosity(disc),
        }
    }

    /// Kinematic bulk viscosity: two thirds of the shear viscosity.
    pub fn kinematic_bulk_viscosity(&self, disc: &Discretization)
        -> (r: Result<Scalar, Error>)
        requires
            disc.wf(),
        ensures
            r matches Ok(s) ==> rat_eq(s@,
                rat_div(
                    rat_mul(rat_int(2), spec_nu(*self, disc.delta_x@, disc.delta_t@)),
                    rat_int(3))),
            r matches Err(e) ==> e == Error::Overflow || e == Error::DivisionByZero,
    {
        proof {
            use_type_invariant(disc.delta_x);
            use_type_invariant(disc.delta_t);
        }
        nu_wf_witness(self, Ghost(disc.delta_x@), Ghost(disc.delta_t@));
        let nu = match self.kinematic_shear_viscosity(disc) {
            Ok(s) => s,
            Err(e) => {
                return Err(e);
            },
        };
        let two = Scalar::from_int(2);
        let three = Scalar::from_int(3);
        let tn = match two.mul(&nu) {
            Ok(s) => s,
            Err(e) => {
                return Err(e);
            },
        };
        let res = match tn.div(&three) {
            Ok(s) => s,
            Err(e) => {
                return Err(e);
            },
        };
        proof {
            use_type_invariant(nu);
            use_type_invariant(tn);
            use_type_invariant(res);
            let gnu = spec_nu(*self, disc.delta_x@, disc.delta_t@);
            lemma_rewrite_mul(tn@, two@, nu@, rat_int(2), gnu);
            lemma_rat_op_wf(rat_int(2), gnu);
            lemma_rewrite_div(res@, tn@, three@, rat_mul(rat_int(2), gnu), rat_int(3));
        }
        Ok(res)
    }
}

/// Establishes that the viscosity encoded by an operator is a
/// well-formed fraction, by walking the operator.
fn nu_wf_witness(op: &CollisionOperator, Ghost(dx): Ghost<Rat>, Ghost(dt): Ghost<Rat>)
    requires
        rat_wf(dx),
        rat_wf(dt),
        crate::scalar::rat_lt(rat_int(0), dx),
        crate::scalar::rat_lt(rat_int(0), dt),
    ensures
        rat_wf(spec_nu(*op, dx, dt)),
    decreases *op,
{
    match op {
        CollisionOperator::Bgk(b) => {
            proof {
                use_type_invariant(b.tau);
                crate::lattice::lemma_cs2_pos(dx, dt);
                lemma_rat_op_wf(dt, rat_int(2));
                lemma_rat_op_wf(b.tau@, rat_div(dt, rat_int(2)));
                lemma_rat_op_wf(spec_cs2(dx, dt), rat_sub(b.tau@, rat_div(dt, rat_int(2))));
            }
        },
        CollisionOperator::Trt(t) => {
            proof {
                use_type_invariant(t.tau_plus);
                crate::lattice::lemma_cs2_pos(dx, dt);
                lemma_rat_op_wf(t.tau_plus@, dt);
                lemma_rat_op_wf(rat_div(t.tau_plus@, dt), rat_half());
                lemma_rat_op_wf(
                    spec_cs2(dx, dt), rat_sub(rat_div(t.tau_plus@, dt), rat_half()));
            }
        },
        CollisionOperator::Kbc(kb) => {
            proof {
                use_type_invariant(kb.ks_viscosity);
            }
        },
        CollisionOperator::Regularized(r) => {
            nu_wf_witness(&r.underlying, Ghost(dx), Ghost(dt));
        },
    }
}

/// The BGK update respects value equality of the equilibrium argument.
pub(crate) proof fn lemma_bgk_cong(cur: Rat, f: Rat, ea: Rat, eb: Rat, dt: Rat, tau: Rat)
    requires
        crate::scalar::rat_wf(cur),
        crate::scalar::rat_wf(f),
        crate::scalar::rat_wf(ea),
        crate::scalar::rat_wf(eb),
        crate::scalar::rat_wf(dt),
        crate::scalar::rat_wf(tau),
        tau.n != 0,
        rat_eq(cur, bgk_cell(f, ea, dt, tau)),
        rat_eq(ea, eb),
    ensures
        rat_eq(cur, bgk_cell(f, eb, dt, tau)),
{
    crate::scalar::lemma_rat_sub_cong(f, ea, f, eb);
    crate::scalar::lemma_rat_op_wf(f, ea);
    crate::scalar::lemma_rat_op_wf(f, eb);
    crate::scalar::lemma_rat_op_wf(dt, tau);
    crate::scalar::lemma_rat_mul_cong(
        rat_int(1), crate::scalar::rat_sub(f, ea), rat_int(1), crate::scalar::rat_sub(f, eb));
    crate::scalar::lemma_rat_mul_cong(
        crate::scalar::rat_div(dt, tau), crate::scalar::rat_sub(f, ea),
        crate::scalar::rat_div(dt, tau), crate::scalar::rat_sub(f, eb));
    crate::scalar::lemma_rat_op_wf(
        crate::scalar::rat_div(dt, tau), crate::scalar::rat_sub(f, ea));
    crate::scalar::lemma_rat_op_wf(
        crate::scalar::rat_div(dt, tau), crate::scalar::rat_sub(f, eb));
    crate::scalar::lemma_rat_sub_cong(
        f,
        rat_mul(crate::scalar::rat_div(dt, tau), crate::scalar::rat_sub(f, ea)),
        f,
        rat_mul(crate::scalar::rat_div(dt, tau), crate::scalar::rat_sub(f, eb)));
    crate::scalar::lemma_rat_op_wf(
        f, rat_mul(crate::scalar::rat_div(dt, tau), crate::scalar::rat_sub(f, ea)));
    crate::scalar::lemma_rat_op_wf(
        f, rat_mul(crate::scalar::rat_div(dt, tau), crate::scalar::rat_sub(f, eb)));
    crate::scalar::lemma_rat_eq_trans(
        cur,
        bgk_cell(f, ea, dt, tau),
        bgk_cell(f, eb, dt, tau));
}

/// Division by a value and multiplication by the same value cancel.
pub(crate) proof fn lemma_mul_div_cancel(c: Rat, x: Rat)
    requires
        rat_wf(c),
        rat_wf(x),
        c.n != 0,
    ensures
        rat_wf(rat_div(x, c)),
        rat_eq(rat_mul(c, rat_div(x, c)), x),
{
    lemma_rat_op_wf(x, c);
    assert((c.n * (x.n * c.d)) * x.d == x.n * (c.d * (x.d * c.n))) by (nonlinear_arith);
    assert((c.n * (x.n * (-c.d))) * x.d == x.n * (c.d * (x.d * (-c.n)))) by (nonlinear_arith);
}

/// Dividing a product by its left factor recovers the right factor.
pub(crate) proof fn lemma_div_mul_cancel(d: Rat, x: Rat)
    requires
        rat_wf(d),
        rat_wf(x),
        d.n != 0,
    ensures
        rat_eq(rat_div(rat_mul(d, x), d), x),
{
    assert(((d.n * x.n) * d.d) * x.d == x.n * ((d.d * x.d) * d.n)) by (nonlinear_arith);
    assert(((d.n * x.n) * (-d.d)) * x.d == x.n * ((d.d * x.d) * (-d.n))) by (nonlinear_arith);
}

/// Adding and then subtracting the same value cancels.
pub(crate) proof fn lemma_add_sub_cancel(x: Rat, h: Rat)
    requires
        rat_wf(x),
        rat_wf(h),
    ensures
        rat_eq(rat_sub(rat_add(x, h), h), x),
{
    assert(((x.n * h.d + h.n * x.d) * h.d - h.n * (x.d * h.d)) * x.d
        == x.n * ((x.d * h.d) * h.d)) by (nonlinear_arith);
}

/// Single-relaxation-time collision.
pub struct BGK {
    pub tau: Scalar,
}

impl BGK {
    /// Relax every population towards the given equilibrium at the
    /// single rate `dt/tau`.
    pub fn evaluate(&self, lattice: &D2Q9, equilibrium: &Vec<Matrix>,
        discretization: &Discretization) -> (r: Result<Vec<Matrix>, Error>)
        requires
            discretization.wf(),
            equilibrium@.len() == 9,
            forall|i: int| 0 <= i < 9 ==> (#[trigger] equilibrium@[i]).wid()
                == lattice.spec_size().0 && equilibrium@[i].hei() == lattice.spec_size().1
                && equilibrium@[i]@.len() == lattice.n_cells(),
            forall|i: int, k: int| 0 <= i < 9 && 0 <= k < lattice.n_cells()
                ==> rat_wf(#[trigger] equilibrium@[i]@[k]),
        ensures
            r matches Ok(v) ==> v@.len() == 9
                && (forall|i: int| 0 <= i < 9 ==> (#[trigger] v@[i]).wid()
                    == lattice.spec_size().0 && v@[i].hei() == lattice.spec_size().1
                    && v@[i]@.len() == lattice.n_cells())
                && (forall|i: int, k: int| 0 <= i < 9 && 0 <= k < lattice.n_cells()
                    ==> rat_wf(#[trigger] v@[i]@[k]))
                && (forall|i: int, k: int| 0 <= i < 9 && 0 <= k < lattice.n_cells()
                    ==> rat_eq(
                        #[trigger] v@[i]@[k],
                        bgk_cell(
                            lattice.pops()[i][k],
                            equilibrium@[i]@[k],
                            discretization.delta_t@,
                            self.tau@))),
            r is Ok ==> self.tau@.n != 0,
            r matches Err(e) ==> e == Error::Overflow || e == Error::DivisionByZero,
    {
        proof {
            use_type_invariant(lattice);
            lattice.lemma_wf();
            use_type_invariant(self.tau);
            use_type_invariant(discretization.delta_t);
        }
        let ghost gdt = discretization.delta_t@;
        let ghost gtau = self.tau@;
        let q = match discretization.delta_t.div(&self.tau) {
            Ok(s) => s,
            Err(e) => {
                return Err(e);
            },
        };
        let n: usize = lattice.population(0).len();
        let mut out: Vec<Matrix> = Vec::new();
        let mut i: usize = 0;
        while i < 9
            invariant
                lattice.inv(),
                equilibrium@.len() == 9,
                forall|j: int| 0 <= j < 9 ==> (#[trigger] equilibrium@[j]).wid()
                    == lattice.spec_size().0 && equilibrium@[j].hei() == lattice.spec_size().1
                    && equilibrium@[j]@.len() == lattice.n_cells(),
                forall|j: int, k: int| 0 <= j < 9 && 0 <= k < lattice.n_cells()
                    ==> rat_wf(#[trigger] equilibrium@[j]@[k]),
                n == lattice.n_cells(),
                gdt == discretization.delta_t@,
                gtau == self.tau@,
                rat_wf(gdt),
                rat_wf(gtau),
                gtau.n != 0,
                rat_eq(q@, rat_div(gdt, gtau)),
                i <= 9,
                out@.len() == i,
                forall|j: int| 0 <= j < i ==> (#[trigger] out@[j]).wid()
                    == lattice.spec_size().0 && out@[j].hei() == lattice.spec_size().1
                    && out@[j]@.len() == lattice.n_cells(),
                forall|j: int, k: int| 0 <= j < i && 0 <= k < lattice.n_cells()
                    ==> rat_wf(#[trigger] out@[j]@[k]),
                forall|j: int, k: int| 0 <= j < i && 0 <= k < lattice.n_cells()
                    ==> rat_eq(
                        #[trigger] out@[j]@[k],
                        bgk_cell(lattice.pops()[j][k], equilibrium@[j]@[k], gdt, gtau)),
            decreases 9 - i,
        {
            let pop = lattice.population(i);
            let eqm = &equilibrium[i];
            proof {
                use_type_invariant(pop);
                pop.lemma_cells_wf();
                use_type_invariant(eqm);
                eqm.lemma_cells_wf();
                use_type_invariant(q);
            }
            let mut cells: Vec<Scalar> = Vec::new();
            let mut k: usize = 0;
            while k < n
                invariant
                    lattice.inv(),
                    i < 9,
                    n == lattice.n_cells(),
                    pop@ == lattice.pops()[i as int],
                    pop@.len() == n,
                    forall|j: int| 0 <= j < n ==> rat_wf(#[trigger] pop@[j]),
                    eqm@ == equilibrium@[i as int]@,
                    eqm@.len() == n,
                    forall|j: int| 0 <= j < n ==> rat_wf(#[trigger] eqm@[j]),
                    rat_wf(gdt),
                    rat_wf(gtau),
                    gtau.n != 0,
                    rat_eq(q@, rat_div(gdt, gtau)),
                    k <= n,
                    cells@.len() == k,
                    forall|j: int| 0 <= j < k
                        ==> rat_eq(
                            (#[trigger] cells@[j])@,
                            bgk_cell(pop@[j], eqm@[j], gdt, gtau)),
                decreases n - k,
            {
                let f = pop.at(k);
                let e = eqm.at(k);
                let d = match f.sub(&e) {
                    Ok(s) => s,
                    Err(e2) => {
                        return Err(e2);
                    },
                };
                let s = match q.mul(&d) {
                    Ok(s) => s,
                    Err(e2) => {
                        return Err(e2);
                    },
                };
                let res = match f.sub(&s) {
                    Ok(s) => s,
                    Err(e2) => {
                        return Err(e2);
                    },
                };
                proof {
                    use_type_invariant(f);
                    use_type_invariant(e);
                    use_type_invariant(d);
                    use_type_invariant(s);
                    use_type_invariant(res);
                    use_type_invariant(q);
                    lemma_rat_op_wf(f@, e@);
                    lemma_rat_op_wf(gdt, gtau);
                    lemma_rewrite_mul(s@, q@, d@, rat_div(gdt, gtau), rat_sub(f@, e@));
                    lemma_rat_op_wf(rat_div(gdt, gtau), rat_sub(f@, e@));
                    lemma_rewrite_sub(
                        res@, f@, s@, f@, rat_mul(rat_div(gdt, gtau), rat_sub(f@, e@)));
                }
                cells.push(res);
                k = k + 1;
            }
            proof {
                use_type_invariant(lattice);
                lattice.lemma_wf();
            }
            let m = match Matrix::new(cells, lattice.size()) {
                Ok(m) => m,
                Err(e2) => {
                    proof {
                        assert(false);
                    }
                    return Err(e2);
                },
            };
            out.push(m);
            i = i + 1;
        }
        Ok(out)
    }

    /// Kinematic shear viscosity encoded by the relaxation time.
    pub fn kinematic_shear_viscosity(&self, disc: &Discretization)
        -> (r: Result<Scalar, Error>)
        requires
            disc.wf(),
        ensures
            r matches Ok(s) ==> rat_eq(s@, bgk_nu(disc.delta_x@, disc.delta_t@, self.tau@)),
            r matches Err(e) ==> e == Error::Overflow,
    {
        proof {
            use_type_invariant(self.tau);
            use_type_invariant(disc.delta_x);
            use_type_invariant(disc.delta_t);
        }
        let ghost gdx = disc.delta_x@;
        let ghost gdt = disc.delta_t@;
        let ghost gcs2 = spec_cs2(gdx, gdt);
        let cs2 = match disc.isothermal_speed_of_sound_squared() {
            Ok(s) => s,
            Err(e) => {
                return Err(e);
            },
        };
        let two = Scalar::from_int(2);
        let halfdt = match disc.delta_t.div(&two) {
            Ok(s) => s,
            Err(e) => {
                return Err(e);
            },
        };
        let shifted = match self.tau.sub(&halfdt) {
            Ok(s) => s,
            Err(e) => {
                return Err(e);
            },
        };
        let res = match cs2.mul(&shifted) {
            Ok(s) => s,
            Err(e) => {
                return Err(e);
            },
        };
        proof {
            use_type_invariant(cs2);
            use_type_invariant(halfdt);
            use_type_invariant(shifted);
            use_type_invariant(res);
            crate::lattice::lemma_cs2_pos(gdx, gdt);
            lemma_rewrite_div(halfdt@, disc.delta_t@, two@, gdt, rat_int(2));
            lemma_rat_op_wf(gdt, rat_int(2));
            lemma_rewrite_sub(shifted@, self.tau@, halfdt@, self.tau@, rat_div(gdt, rat_int(2)));
            lemma_rat_op_wf(self.tau@, rat_div(gdt, rat_int(2)));
            crate::scalar::lemma_rat_mul_cong(
                cs2@, shifted@, gcs2, rat_sub(self.tau@, rat_div(gdt, rat_int(2))));
            lemma_rat_op_wf(cs2@, shifted@);
            lemma_rat_op_wf(gcs2, rat_sub(self.tau@, rat_div(gdt, rat_int(2))));
            lemma_rat_eq_trans(
                res@,
                rat_mul(cs2@, shifted@),
                bgk_nu(gdx, gdt, self.tau@));
        }
        Ok(res)
    }
}

/// Two-relaxation-time collision.
pub struct TRT {
    pub tau_minus: Scalar,
    pub tau_plus: Scalar,
}

impl TRT {
    /// Derive the two relaxation times from the magic parameter
    /// `lambda`, a target kinematic shear viscosity and the
    /// discretization.  The stated viscosity is recovered exactly:
    /// `kinematic_shear_viscosity` of the result equals `ks_viscosity`.
    pub fn new(lambda: &Scalar, ks_viscosity: &Scalar, disc: &Discretization)
        -> (r: Result<TRT, Error>)
        requires
            disc.wf(),
        ensures
            r matches Ok(t) ==> rat_eq(t.tau_plus@,
                trt_tau_plus(disc.delta_x@, disc.delta_t@, ks_viscosity@)),
            r matches Ok(t) ==> rat_eq(t.tau_minus@,
                trt_tau_minus(disc.delta_t@, t.tau_plus@, lambda@)),
            r matches Ok(t) ==> rat_eq(
                trt_nu(disc.delta_x@, disc.delta_t@, t.tau_plus@), ks_viscosity@),
            r matches Err(e) ==> e == Error::Overflow || e == Error::DivisionByZero,
    {
        proof {
            use_type_invariant(*lambda);
            use_type_invariant(*ks_viscosity);
            use_type_invariant(disc.delta_x);
            use_type_invariant(disc.delta_t);
        }
        let ghost gdx = disc.delta_x@;
        let ghost gdt = disc.delta_t@;
        let ghost gcs2 = spec_cs2(gdx, gdt);
        let cs2 = match disc.isothermal_speed_of_sound_squared() {
            Ok(s) => s,
            Err(e) => {
                return Err(e);
            },
        };
        proof {
            use_type_invariant(cs2);
            crate::lattice::lemma_cs2_pos(gdx, gdt);
            lemma_rat_eq_nonzero(cs2@, gcs2);
        }
        let nu_over = match ks_viscosity.div(&cs2) {
            Ok(s) => s,
            Err(e) => {
                return Err(e);
            },
        };
        let half = Scalar::from_parts(1, 2);
        let inner = match nu_over.add(&half) {
            Ok(s) => s,
            Err(e) => {
                return Err(e);
            },
        };
        let tau_plus = match disc.delta_t.mul(&inner) {
            Ok(s) => s,
            Err(e) => {
                return Err(e);
            },
        };
        proof {
            use_type_invariant(nu_over);
            use_type_invariant(inner);
            use_type_invariant(tau_plus);
            lemma_rewrite_div(nu_over@, ks_viscosity@, cs2@, ks_viscosity@, gcs2);
            lemma_rat_op_wf(ks_viscosity@, gcs2);
            lemma_rewrite_add(
                inner@, nu_over@, half@, rat_div(ks_viscosity@, gcs2), rat_half());
            lemma_rat_op_wf(rat_div(ks_viscosity@, gcs2), rat_half());
            lemma_rewrite_mul(
                tau_plus@, disc.delta_t@, inner@, gdt,
                rat_add(rat_div(ks_viscosity@, gcs2), rat_half()));
        }
        // tau_minus = dt (lambda/(tau_plus/dt - 1/2) + 1/2)
        let ratio = match tau_plus.div(&disc.delta_t) {
            Ok(s) => s,
            Err(e) => {
                return Err(e);
            },
        };
        let shifted = match ratio.sub(&half) {
            Ok(s) => s,
            Err(e) => {
                return Err(e);
            },
        };
        let lam_over = match lambda.div(&shifted) {
            Ok(s) => s,
            Err(e) => {
                return Err(e);
            },
        };
        let inner2 = match lam_over.add(&half) {
            Ok(s) => s,
            Err(e) => {
                return Err(e);
            },
        };
        let tau_minus = match disc.delta_t.mul(&inner2) {
            Ok(s) => s,
            Err(e) => {
                return Err(e);
            },
        };
        proof {
            use_type_invariant(ratio);
            use_type_invariant(shifted);
            use_type_invariant(lam_over);
            use_type_invariant(inner2);
            use_type_invariant(tau_minus);
            lemma_rewrite_div(ratio@, tau_plus@, disc.delta_t@, tau_plus@, gdt);
            lemma_rat_op_wf(tau_plus@, gdt);
            lemma_rewrite_sub(shifted@, ratio@, half@, rat_div(tau_plus@, gdt), rat_half());
            lemma_rat_op_wf(rat_div(tau_plus@, gdt), rat_half());
            lemma_rat_eq_nonzero(shifted@, rat_sub(rat_div(tau_plus@, gdt), rat_half()));
            lemma_rewrite_div(
                lam_over@, lambda@, shifted@, lambda@,
                rat_sub(rat_div(tau_plus@, gdt), rat_half()));
            lemma_rat_op_wf(lambda@, rat_sub(rat_div(tau_plus@, gdt), rat_half()));
            lemma_rewrite_add(
                inner2@, lam_over@, half@,
                rat_div(lambda@, rat_sub(rat_div(tau_plus@, gdt), rat_half())), rat_half());
            lemma_rat_op_wf(
                rat_div(lambda@, rat_sub(rat_div(tau_plus@, gdt), rat_half())), rat_half());
            lemma_rewrite_mul(
                tau_minus@, disc.delta_t@, inner2@, gdt,
                rat_add(
                    rat_div(lambda@, rat_sub(rat_div(tau_plus@, gdt), rat_half())),
                    rat_half()));
        }
        // The viscosity round trip: cs2 (tau_plus/dt - 1/2) == nu.
        proof {
            let nu = ks_viscosity@;
            let x = rat_add(rat_div(nu, gcs2), rat_half());
            lemma_rat_op_wf(nu, gcs2);
            lemma_rat_op_wf(rat_div(nu, gcs2), rat_half());
            lemma_rat_op_wf(gdt, x);
            lemma_rat_op_wf(rat_mul(gdt, x), gdt);
            lemma_div_mul_cancel(gdt, x);
            // tau_plus/dt ~ x
            crate::scalar::lemma_rat_div_cong(tau_plus@, gdt, rat_mul(gdt, x), gdt);
            lemma_rat_op_wf(rat_mul(gdt, x), gdt);
            lemma_rat_op_wf(tau_plus@, gdt);
            lemma_rat_eq_trans(rat_div(tau_plus@, gdt), rat_div(rat_mul(gdt, x), gdt), x);
            // tau_plus/dt - 1/2 ~ nu/cs2
            crate::scalar::lemma_rat_sub_cong(
                rat_div(tau_plus@, gdt), rat_half(), x, rat_half());
            lemma_add_sub_cancel(rat_div(nu, gcs2), rat_half());
            lemma_rat_op_wf(rat_div(tau_plus@, gdt), rat_half());
            lemma_rat_op_wf(x, rat_half());
            lemma_rat_eq_trans(
                rat_sub(rat_div(tau_plus@, gdt), rat_half()),
                rat_sub(x, rat_half()),
                rat_div(nu, gcs2));
            // cs2 (tau_plus/dt - 1/2) ~ cs2 (nu/cs2) ~ nu
            crate::scalar::lemma_rat_mul_cong(
                gcs2, rat_sub(rat_div(tau_plus@, gdt), rat_half()),
                gcs2, rat_div(nu, gcs2));
            lemma_mul_div_cancel(gcs2, nu);
            lemma_rat_op_wf(gcs2, rat_sub(rat_div(tau_plus@, gdt), rat_half()));
            lemma_rat_op_wf(gcs2, rat_div(nu, gcs2));
            lemma_rat_eq_trans(
                rat_mul(gcs2, rat_sub(rat_div(tau_plus@, gdt), rat_half())),
                rat_mul(gcs2, rat_div(nu, gcs2)),
                nu);
        }
        Ok(TRT { tau_minus, tau_plus })
    }

    /// Relax the symmetric and antisymmetric parts of each reversed
    /// population pair at their own rates.  The equilibrium is derived
    /// from the lattice itself.
    pub fn evaluate(&self, lattice: &D2Q9, discretization: &Discretization)
        -> (r: Result<Vec<Matrix>, Error>)
        requires
            discretization.wf(),
        ensures
            r matches Ok(v) ==> v@.len() == 9
                && (forall|i: int| 0 <= i < 9 ==> (#[trigger] v@[i]).wid()
                    == lattice.spec_size().0 && v@[i].hei() == lattice.spec_size().1
                    && v@[i]@.len() == lattice.n_cells())
                && (forall|i: int, k: int| 0 <= i < 9 && 0 <= k < lattice.n_cells()
                    ==> rat_wf(#[trigger] v@[i]@[k]))
                && (forall|i: int, k: int| 0 <= i < 9 && 0 <= k < lattice.n_cells()
                    ==> rat_eq(
                        #[trigger] v@[i]@[k],
                        trt_cell(
                            lattice.pops()[i][k],
                            lattice.pops()[crate::lattice::opposite(i)][k],
                            crate::lattice::lattice_eq(*lattice, i, k,
                                spec_cs2(discretization.delta_x@, discretization.delta_t@)),
                            crate::lattice::lattice_eq(*lattice, crate::lattice::opposite(i),
                                k,
                                spec_cs2(discretization.delta_x@, discretization.delta_t@)),
                            discretization.delta_t@,
                            self.tau_plus@,
                            self.tau_minus@))),
            r matches Err(e) ==> e == Error::Overflow || e == Error::DivisionByZero,
    {
        proof {
            use_type_invariant(lattice);
            lattice.lemma_wf();
            use_type_invariant(self.tau_plus);
            use_type_invariant(self.tau_minus);
            use_type_invariant(discretization.delta_t);
        }
        let ghost gdx = discretization.delta_x@;
        let ghost gdt = discretization.delta_t@;
        let ghost gtp = self.tau_plus@;
        let ghost gtm = self.tau_minus@;
        let ghost gcs2 = spec_cs2(discretization.delta_x@, discretization.delta_t@);
        let eqs = match lattice.equilibrium(discretization) {
            Ok(v) => v,
            Err(e) => {
                return Err(e);
            },
        };
        let one = Scalar::one();
        let op = match one.div(&self.tau_plus) {
            Ok(s) => s,
            Err(e) => {
                return Err(e);
            },
        };
        let om = match one.div(&self.tau_minus) {
            Ok(s) => s,
            Err(e) => {
                return Err(e);
            },
        };
        let half = Scalar::from_parts(1, 2);
        let dth = match discretization.delta_t.mul(&half) {
            Ok(s) => s,
            Err(e) => {
                return Err(e);
            },
        };
        let coef = match dth.neg() {
            Ok(s) => s,
            Err(e) => {
                return Err(e);
            },
        };
        proof {
            use_type_invariant(op);
            use_type_invariant(om);
            use_type_invariant(dth);
            use_type_invariant(coef);
            lemma_rat_op_wf(gdt, rat_half());
            crate::scalar::lemma_rat_neg_cong(dth@, rat_mul(gdt, rat_half()));
            lemma_rat_op_wf(rat_mul(gdt, rat_half()), rat_half());
            lemma_rat_eq_trans(
                coef@, rat_neg(dth@), rat_neg(rat_mul(gdt, rat_half())));
        }
        let n: usize = lattice.population(0).len();
        let mut out: Vec<Matrix> = Vec::new();
        let mut i: usize = 0;
        while i < 9
            invariant
                lattice.inv(),
                discretization.wf(),
                gdt == discretization.delta_t@,
                gtp == self.tau_plus@,
                gtm == self.tau_minus@,
                gcs2 == spec_cs2(discretization.delta_x@, discretization.delta_t@),
                eqs@.len() == 9,
                forall|j: int| 0 <= j < 9 ==> (#[trigger] eqs@[j]).wid()
                    == lattice.spec_size().0 && eqs@[j].hei() == lattice.spec_size().1
                    && eqs@[j]@.len() == lattice.n_cells(),
                forall|j: int, k: int| 0 <= j < 9 && 0 <= k < lattice.n_cells()
                    ==> rat_wf(#[trigger] eqs@[j]@[k]),
                forall|j: int, k: int| 0 <= j < 9 && 0 <= k < lattice.n_cells()
                    ==> rat_eq(#[trigger] eqs@[j]@[k],
                        crate::lattice::lattice_eq(*lattice, j, k, gcs2)),
                forall|j: int| 0 <= j < lattice.n_cells()
                    ==> crate::lattice::cell_density(#[trigger] lattice.cell(j)).n != 0,
                discretization.wf(),
                gdx == discretization.delta_x@,
                n == lattice.n_cells(),
                rat_wf(gdt),
                rat_wf(gtp),
                rat_wf(gtm),
                gtp.n != 0,
                gtm.n != 0,
                rat_eq(op@, rat_div(rat_int(1), gtp)),
                rat_eq(om@, rat_div(rat_int(1), gtm)),
                rat_eq(coef@, rat_neg(rat_mul(gdt, rat_half()))),
                i <= 9,
                out@.len() == i,
                forall|j: int| 0 <= j < i ==> (#[trigger] out@[j]).wid()
                    == lattice.spec_size().0 && out@[j].hei() == lattice.spec_size().1
                    && out@[j]@.len() == lattice.n_cells(),
                forall|j: int, k: int| 0 <= j < i && 0 <= k < lattice.n_cells()
                    ==> rat_wf(#[trigger] out@[j]@[k]),
                forall|j: int, k: int| 0 <= j < i && 0 <= k < lattice.n_cells()
                    ==> rat_eq(
                        #[trigger] out@[j]@[k],
                        trt_cell(
                            lattice.pops()[j][k],
                            lattice.pops()[crate::lattice::opposite(j)][k],
                            crate::lattice::lattice_eq(*lattice, j, k, gcs2),
                            crate::lattice::lattice_eq(*lattice,
                                crate::lattice::opposite(j), k, gcs2),
                            gdt, gtp, gtm)),
            decreases 9 - i,
        {
            let o = crate::lattice::opposite_index(i);
            let pop = lattice.population(i);
            let popo = lattice.population(o);
            let eqm = &eqs[i];
            let eqo = &eqs[o];
            proof {
                use_type_invariant(pop);
                pop.lemma_cells_wf();
                use_type_invariant(popo);
                popo.lemma_cells_wf();
                use_type_invariant(eqm);
                eqm.lemma_cells_wf();
                use_type_invariant(eqo);
                eqo.lemma_cells_wf();
            }
            let ghost ge = |k: int| crate::lattice::lattice_eq(*lattice, i as int, k, gcs2);
            let mut cells: Vec<Scalar> = Vec::new();
            let mut k: usize = 0;
            while k < n
                invariant
                    lattice.inv(),
                    i < 9,
                    o == crate::lattice::opposite(i as int),
                    n == lattice.n_cells(),
                    pop@ == lattice.pops()[i as int],
                    popo@ == lattice.pops()[o as int],
                    eqm@ == eqs@[i as int]@,
                    eqo@ == eqs@[o as int]@,
                    pop@.len() == n,
                    popo@.len() == n,
                    eqm@.len() == n,
                    eqo@.len() == n,
                    forall|j: int| 0 <= j < n ==> rat_wf(#[trigger] pop@[j]),
                    forall|j: int| 0 <= j < n ==> rat_wf(#[trigger] popo@[j]),
                    forall|j: int| 0 <= j < n ==> rat_wf(#[trigger] eqm@[j]),
                    forall|j: int| 0 <= j < n ==> rat_wf(#[trigger] eqo@[j]),
                    forall|j: int| 0 <= j < n ==> rat_eq(#[trigger] eqm@[j],
                        crate::lattice::lattice_eq(*lattice, i as int, j, gcs2)),
                    forall|j: int| 0 <= j < n ==> rat_eq(#[trigger] eqo@[j],
                        crate::lattice::lattice_eq(*lattice, o as int, j, gcs2)),
                    forall|j: int| 0 <= j < n
                        ==> crate::lattice::cell_density(#[trigger] lattice.cell(j)).n != 0,
                    discretization.wf(),
                    gdx == discretization.delta_x@,
                    gdt == discretization.delta_t@,
                    gcs2 == spec_cs2(gdx, gdt),
                    rat_wf(gdt),
                    rat_wf(gtp),
                    rat_wf(gtm),
                    gtp.n != 0,
                    gtm.n != 0,
                    rat_eq(op@, rat_div(rat_int(1), gtp)),
                    rat_eq(om@, rat_div(rat_int(1), gtm)),
                    rat_eq(coef@, rat_neg(rat_mul(gdt, rat_half()))),
                    k <= n,
                    cells@.len() == k,
                    forall|j: int| 0 <= j < k
                        ==> rat_eq(
                            (#[trigger] cells@[j])@,
                            trt_cell(
                                pop@[j], popo@[j],
                                crate::lattice::lattice_eq(*lattice, i as int, j, gcs2),
                                crate::lattice::lattice_eq(*lattice, o as int, j, gcs2),
                                gdt, gtp, gtm)),
                decreases n - k,
            {
                let f = pop.at(k);
                let fo = popo.at(k);
                let e = eqm.at(k);
                let eo = eqo.at(k);
                let fp = match f.add(&fo) {
                    Ok(s) => s,
                    Err(e2) => {
                        return Err(e2);
                    },
                };
                let ep = match e.add(&eo) {
                    Ok(s) => s,
                    Err(e2) => {
                        return Err(e2);
                    },
                };
                let fm = match f.sub(&fo) {
                    Ok(s) => s,
                    Err(e2) => {
                        return Err(e2);
                    },
                };
                let em = match e.sub(&eo) {
                    Ok(s) => s,
                    Err(e2) => {
                        return Err(e2);
                    },
                };
                let dp = match fp.sub(&ep) {
                    Ok(s) => s,
                    Err(e2) => {
                        return Err(e2);
                    },
                };
                let dm = match fm.sub(&em) {
                    Ok(s) => s,
                    Err(e2) => {
                        return Err(e2);
                    },
                };
                let tp2 = match dp.mul(&op) {
                    Ok(s) => s,
                    Err(e2) => {
                        return Err(e2);
                    },
                };
                let tm2 = match dm.mul(&om) {
                    Ok(s) => s,
                    Err(e2) => {
                        return Err(e2);
                    },
                };
                let sum = match tp2.add(&tm2) {
                    Ok(s) => s,
                    Err(e2) => {
                        return Err(e2);
                    },
                };
                let omg = match sum.mul(&coef) {
                    Ok(s) => s,
                    Err(e2) => {
                        return Err(e2);
                    },
                };
                let res = match f.add(&omg) {
                    Ok(s) => s,
                    Err(e2) => {
                        return Err(e2);
                    },
                };
                proof {
                    use_type_invariant(discretization.delta_x);
                    use_type_invariant(discretization.delta_t);
                    let gE = crate::lattice::lattice_eq(*lattice, i as int, k as int, gcs2);
                    let gEO = crate::lattice::lattice_eq(*lattice, o as int, k as int, gcs2);
                    crate::lattice::lemma_lattice_eq_wf(
                        *lattice, i as int, k as int, gdx, gdt);
                    crate::lattice::lemma_lattice_eq_wf(
                        *lattice, o as int, k as int, gdx, gdt);
                    use_type_invariant(f);
                    use_type_invariant(fo);
                    use_type_invariant(e);
                    use_type_invariant(eo);
                    use_type_invariant(fp);
                    use_type_invariant(ep);
                    use_type_invariant(fm);
                    use_type_invariant(em);
                    use_type_invariant(dp);
                    use_type_invariant(dm);
                    use_type_invariant(tp2);
                    use_type_invariant(tm2);
                    use_type_invariant(sum);
                    use_type_invariant(omg);
                    use_type_invariant(res);
                    use_type_invariant(op);
                    use_type_invariant(om);
                    use_type_invariant(coef);
                    lemma_rewrite_add(ep@, e@, eo@, gE, gEO);
                    lemma_rewrite_sub(em@, e@, eo@, gE, gEO);
                    lemma_rat_op_wf(f@, fo@);
                    lemma_rat_op_wf(gE, gEO);
                    lemma_rewrite_sub(dp@, fp@, ep@, rat_add(f@, fo@), rat_add(gE, gEO));
                    lemma_rewrite_sub(dm@, fm@, em@, rat_sub(f@, fo@), rat_sub(gE, gEO));
                    lemma_rat_op_wf(rat_add(f@, fo@), rat_add(gE, gEO));
                    lemma_rat_op_wf(rat_sub(f@, fo@), rat_sub(gE, gEO));
                    lemma_rat_op_wf(rat_int(1), gtp);
                    lemma_rat_op_wf(rat_int(1), gtm);
                    lemma_rewrite_mul(
                        tp2@, dp@, op@,
                        rat_sub(rat_add(f@, fo@), rat_add(gE, gEO)),
                        rat_div(rat_int(1), gtp));
                    lemma_rewrite_mul(
                        tm2@, dm@, om@,
                        rat_sub(rat_sub(f@, fo@), rat_sub(gE, gEO)),
                        rat_div(rat_int(1), gtm));
                    lemma_rat_op_wf(
                        rat_sub(rat_add(f@, fo@), rat_add(gE, gEO)),
                        rat_div(rat_int(1), gtp));
                    lemma_rat_op_wf(
                        rat_sub(rat_sub(f@, fo@), rat_sub(gE, gEO)),
                        rat_div(rat_int(1), gtm));
                    lemma_rewrite_add(
                        sum@, tp2@, tm2@,
                        rat_mul(
                            rat_sub(rat_add(f@, fo@), rat_add(gE, gEO)),
                            rat_div(rat_int(1), gtp)),
                        rat_mul(
                            rat_sub(rat_sub(f@, fo@), rat_sub(gE, gEO)),
                            rat_div(rat_int(1), gtm)));
                    lemma_rat_op_wf(
                        rat_mul(
                            rat_sub(rat_add(f@, fo@), rat_add(gE, gEO)),
                            rat_div(rat_int(1), gtp)),
                        rat_mul(
                            rat_sub(rat_sub(f@, fo@), rat_sub(gE, gEO)),
                            rat_div(rat_int(1), gtm)));
                    lemma_rat_op_wf(gdt, rat_half());
                    lemma_rat_op_wf(rat_mul(gdt, rat_half()), rat_half());
                    lemma_rewrite_mul(
                        omg@, sum@, coef@,
                        rat_add(
                            rat_mul(
                                rat_sub(rat_add(f@, fo@), rat_add(gE, gEO)),
                                rat_div(rat_int(1), gtp)),
                            rat_mul(
                                rat_sub(rat_sub(f@, fo@), rat_sub(gE, gEO)),
                                rat_div(rat_int(1), gtm))),
                        rat_neg(rat_mul(gdt, rat_half())));
                    lemma_rat_op_wf(
                        rat_add(
                            rat_mul(
                                rat_sub(rat_add(f@, fo@), rat_add(gE, gEO)),
                                rat_div(rat_int(1), gtp)),
                            rat_mul(
                                rat_sub(rat_sub(f@, fo@), rat_sub(gE, gEO)),
                                rat_div(rat_int(1), gtm))),
                        rat_neg(rat_mul(gdt, rat_half())));
                    lemma_rewrite_add(
                        res@, f@, omg@, f@,
                        rat_mul(
                            rat_add(
                                rat_mul(
                                    rat_sub(rat_add(f@, fo@), rat_add(gE, gEO)),
                                    rat_div(rat_int(1), gtp)),
                                rat_mul(
                                    rat_sub(rat_sub(f@, fo@), rat_sub(gE, gEO)),
                                    rat_div(rat_int(1), gtm))),
                            rat_neg(rat_mul(gdt, rat_half()))));
                }
                cells.push(res);
                k = k + 1;
            }
            proof {
                use_type_invariant(lattice);
                lattice.lemma_wf();
            }
            let m = match Matrix::new(cells, lattice.size()) {
                Ok(m) => m,
                Err(e2) => {
                    proof {
                        assert(false);
                    }
                    return Err(e2);
                },
            };
            out.push(m);
            i = i + 1;
        }
        Ok(out)
    }

    /// Kinematic shear viscosity encoded by the symmetric relaxation
    /// time.
    pub fn kinematic_shear_viscosity(&self, disc: &Discretization)
        -> (r: Result<Scalar, Error>)
        requires
            disc.wf(),
        ensures
            r matches Ok(s) ==> rat_eq(s@, trt_nu(disc.delta_x@, disc.delta_t@, self.tau_plus@)),
            r matches Err(e) ==> e == Error::Overflow || e == Error::DivisionByZero,
    {
        proof {
            use_type_invariant(self.tau_plus);
            use_type_invariant(disc.delta_x);
            use_type_invariant(disc.delta_t);
        }
        let ghost gdx = disc.delta_x@;
        let ghost gdt = disc.delta_t@;
        let ghost gcs2 = spec_cs2(gdx, gdt);
        let cs2 = match disc.isothermal_speed_of_sound_squared() {
            Ok(s) => s,
            Err(e) => {
                return Err(e);
            },
        };
        let half = Scalar::from_parts(1, 2);
        let ratio = match self.tau_plus.div(&disc.delta_t) {
            Ok(s) => s,
            Err(e) => {
                return Err(e);
            },
        };
        let shifted = match ratio.sub(&half) {
            Ok(s) => s,
            Err(e) => {
                return Err(e);
            },
        };
        let res = match cs2.mul(&shifted) {
            Ok(s) => s,
            Err(e) => {
                return Err(e);
            },
        };
        proof {
            use_type_invariant(cs2);
            use_type_invariant(ratio);
            use_type_invariant(shifted);
            use_type_invariant(res);
            crate::lattice::lemma_cs2_pos(gdx, gdt);
            lemma_rewrite_div(ratio@, self.tau_plus@, disc.delta_t@, self.tau_plus@, gdt);
            lemma_rat_op_wf(self.tau_plus@, gdt);
            lemma_rewrite_sub(
                shifted@, ratio@, half@, rat_div(self.tau_plus@, gdt), rat_half());
            lemma_rat_op_wf(rat_div(self.tau_plus@, gdt), rat_half());
            crate::scalar::lemma_rat_mul_cong(
                cs2@, shifted@, gcs2, rat_sub(rat_div(self.tau_plus@, gdt), rat_half()));
            lemma_rat_op_wf(cs2@, shifted@);
            lemma_rat_op_wf(gcs2, rat_sub(rat_div(self.tau_plus@, gdt), rat_half()));
            lemma_rat_eq_trans(
                res@,
                rat_mul(cs2@, shifted@),
                trt_nu(gdx, gdt, self.tau_plus@));
        }
        Ok(res)
    }

    /// The magic parameter encoded by the two relaxation times.
    pub fn lambda(&self, disc: &Discretization) -> (r: Result<Scalar, Error>)
        requires
            disc.wf(),
        ensures
            r matches Ok(s) ==> rat_eq(s@,
                trt_lambda(disc.delta_t@, self.tau_plus@, self.tau_minus@)),
            r matches Err(e) ==> e == Error::Overflow || e == Error::DivisionByZero,
    {
        proof {
            use_type_invariant(self.tau_plus);
            use_type_invariant(self.tau_minus);
            use_type_invariant(disc.delta_t);
        }
        let ghost gdt = disc.delta_t@;
        let half = Scalar::from_parts(1, 2);
        let one = Scalar::one();
        let rp = match self.tau_plus.div(&disc.delta_t) {
            Ok(s) => s,
            Err(e) => {
                return Err(e);
            },
        };
        let sp = match rp.sub(&half) {
            Ok(s) => s,
            Err(e) => {
                return Err(e);
            },
        };
        let first = match one.mul(&sp) {
            Ok(s) => s,
            Err(e) => {
                return Err(e);
            },
        };
        let rm = match self.tau_minus.div(&disc.delta_t) {
            Ok(s) => s,
            Err(e) => {
                return Err(e);
            },
        };
        let sm = match rm.sub(&half) {
            Ok(s) => s,
            Err(e) => {
                return Err(e);
            },
        };
        let res = match first.mul(&sm) {
            Ok(s) => s,
            Err(e) => {
                return Err(e);
            },
        };
        proof {
            use_type_invariant(rp);
            use_type_invariant(sp);
            use_type_invariant(first);
            use_type_invariant(rm);
            use_type_invariant(sm);
            use_type_invariant(res);
            lemma_rewrite_div(rp@, self.tau_plus@, disc.delta_t@, self.tau_plus@, gdt);
            lemma_rat_op_wf(self.tau_plus@, gdt);
            lemma_rewrite_sub(sp@, rp@, half@, rat_div(self.tau_plus@, gdt), rat_half());
            lemma_rat_op_wf(rat_div(self.tau_plus@, gdt), rat_half());
            lemma_rewrite_mul(
                first@, one@, sp@, rat_int(1),
                rat_sub(rat_div(self.tau_plus@, gdt), rat_half()));
            lemma_rewrite_div(rm@, self.tau_minus@, disc.delta_t@, self.tau_minus@, gdt);
            lemma_rat_op_wf(self.tau_minus@, gdt);
            lemma_rewrite_sub(sm@, rm@, half@, rat_div(self.tau_minus@, gdt), rat_half());
            lemma_rat_op_wf(rat_div(self.tau_minus@, gdt), rat_half());
            lemma_rat_op_wf(
                rat_int(1), rat_sub(rat_div(self.tau_plus@, gdt), rat_half()));
            lemma_rewrite_mul(
                res@, first@, sm@,
                rat_mul(rat_int(1), rat_sub(rat_div(self.tau_plus@, gdt), rat_half())),
                rat_sub(rat_div(self.tau_minus@, gdt), rat_half()));
        }
        Ok(res)
    }
}

} // verus!
