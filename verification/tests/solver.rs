//! End-to-end checks of the exact lattice Boltzmann solver.

use chemsim::collision::BGK;
use chemsim::collision::CollisionOperator;
use chemsim::collision::KBC;
use chemsim::collision::Regularized;
use chemsim::collision::TRT;
use chemsim::field::Matrix;
use chemsim::lattice::compute_equilibrium;
use chemsim::lattice::opposite_index;
use chemsim::lattice::weight_of;
use chemsim::lattice::D2Q9;
use chemsim::lattice::Discretization;
use chemsim::mode::DisplayMode;
use chemsim::scalar::Error;
use chemsim::scalar::Scalar;
use chemsim::state::BoundaryMode;
use chemsim::state::Geometry;
use chemsim::state::State;

fn s(n: i64, d: i64) -> Scalar {
    Scalar::new(n, d).unwrap()
}

fn unit_disc() -> Discretization {
    Discretization { delta_x: Scalar::from_int(1), delta_t: Scalar::from_int(1) }
}

/// Populations of a grid at rest: density one, zero velocity, built
/// through the equilibrium formula.
fn rest_populations(w: usize, h: usize) -> Vec<Matrix> {
    let rho = Matrix::new_filled(Scalar::from_int(1), (w, h));
    let vx = Matrix::new_filled(Scalar::from_int(0), (w, h));
    let vy = Matrix::new_filled(Scalar::from_int(0), (w, h));
    compute_equilibrium(&rho, (&vx, &vy), &unit_disc()).unwrap()
}

/// Populations of a grid in uniform motion `(ux, uy)` with density one.
fn flow_populations(w: usize, h: usize, ux: Scalar, uy: Scalar) -> Vec<Matrix> {
    let rho = Matrix::new_filled(Scalar::from_int(1), (w, h));
    let vx = Matrix::new_filled(ux, (w, h));
    let vy = Matrix::new_filled(uy, (w, h));
    compute_equilibrium(&rho, (&vx, &vy), &unit_disc()).unwrap()
}

fn total_mass(st: &State) -> Scalar {
    let mut acc = Scalar::from_int(0);
    for p in st.populations() {
        acc = acc.add(&p.sum().unwrap()).unwrap();
    }
    acc
}

#[test]
fn scalar_arithmetic_is_exact() {
    let a = s(1, 3);
    let b = s(1, 6);
    assert!(a.add(&b).unwrap().eq_value(&s(1, 2)));
    assert!(a.sub(&b).unwrap().eq_value(&s(1, 6)));
    assert!(a.mul(&b).unwrap().eq_value(&s(1, 18)));
    assert!(a.div(&b).unwrap().eq_value(&s(2, 1)));
    assert!(a.neg().unwrap().eq_value(&s(-1, 3)));
    assert!(s(2, 4).eq_value(&s(1, 2)));
    assert_eq!(s(2, 4).numer(), 1);
    assert_eq!(s(2, 4).denom(), 2);
}

#[test]
fn scalar_zero_denominator_is_reported() {
    assert_eq!(Scalar::new(1, 0), Err(Error::DivisionByZero));
    assert_eq!(s(1, 1).div(&s(0, 5)), Err(Error::DivisionByZero));
}

#[test]
fn scalar_overflow_is_reported() {
    let big = Scalar::from_int(i64::MAX);
    assert_eq!(big.mul(&big), Err(Error::Overflow));
}

#[test]
fn matrix_wrong_slice_size_is_reported() {
    let cells = vec![Scalar::from_int(1); 5];
    match Matrix::new(cells, (2, 3)) {
        Err(Error::InvalidSliceSize) => {}
        _ => panic!("a 5-cell slice must not make a 2 by 3 matrix"),
    }
}

#[test]
fn matrix_elementwise_operations() {
    let a = Matrix::new(vec![s(1, 1), s(2, 1), s(3, 1), s(4, 1)], (2, 2)).unwrap();
    let b = Matrix::new(vec![s(1, 2), s(1, 2), s(1, 2), s(1, 2)], (2, 2)).unwrap();
    let sum = a.add(&b).unwrap();
    assert!(sum.at(0).eq_value(&s(3, 2)));
    let prod = a.hadamard(&b).unwrap();
    assert!(prod.at(3).eq_value(&s(2, 1)));
    let scaled = a.scale(&s(2, 1)).unwrap();
    assert!(scaled.at(2).eq_value(&s(6, 1)));
    let quot = a.divide(&b).unwrap();
    assert!(quot.at(1).eq_value(&s(4, 1)));
    assert!(a.sum().unwrap().eq_value(&s(10, 1)));
}

#[test]
fn weights_sum_to_one() {
    let mut acc = Scalar::from_int(0);
    for i in 0..9 {
        acc = acc.add(&weight_of(i)).unwrap();
    }
    assert!(acc.eq_value(&Scalar::from_int(1)));
}

#[test]
fn direction_pairing_is_an_involution() {
    for i in 0..9 {
        let o = opposite_index(i);
        assert!(o < 9);
        assert_eq!(opposite_index(o), i);
    }
    assert_eq!(opposite_index(0), 0);
    assert_eq!(opposite_index(1), 3);
    assert_eq!(opposite_index(2), 4);
    assert_eq!(opposite_index(5), 7);
    assert_eq!(opposite_index(6), 8);
}

#[test]
fn swapping_populations_twice_restores_them() {
    let (w, h) = (3, 2);
    let mut pops = Vec::new();
    for i in 0..9 {
        pops.push(Matrix::new_filled(Scalar::from_int(i as i64 + 1), (w, h)));
    }
    let lat = D2Q9::new(pops);
    let once = D2Q9::new(lat.swap_populations());
    let twice = D2Q9::new(once.swap_populations());
    for i in 0..9 {
        let before = lat.population(i);
        let after = twice.population(i);
        for k in 0..before.len() {
            assert!(before.at(k).eq_value(&after.at(k)));
        }
    }
}

#[test]
fn equilibrium_at_rest_is_the_weights() {
    let pops = rest_populations(4, 4);
    for i in 0..9 {
        let w = weight_of(i);
        for k in 0..pops[i].len() {
            assert!(pops[i].at(k).eq_value(&w));
        }
    }
}

#[test]
fn trt_viscosity_round_trip() {
    let disc = unit_disc();
    let nu = s(1, 10);
    let lambda = s(1, 4);
    let trt = TRT::new(&lambda, &nu, &disc).unwrap();
    let back = trt.kinematic_shear_viscosity(&disc).unwrap();
    assert!(back.eq_value(&nu));
    let lam_back = trt.lambda(&disc).unwrap();
    assert!(lam_back.eq_value(&lambda));
}

#[test]
fn bgk_viscosity_formula() {
    let disc = unit_disc();
    let bgk = BGK { tau: Scalar::from_int(1) };
    // cs2 (tau - dt/2) = (1/3)(1/2) = 1/6
    let nu = bgk.kinematic_shear_viscosity(&disc).unwrap();
    assert!(nu.eq_value(&s(1, 6)));
    let op = CollisionOperator::Bgk(BGK { tau: Scalar::from_int(1) });
    let bulk = op.kinematic_bulk_viscosity(&disc).unwrap();
    assert!(bulk.eq_value(&s(1, 9)));
}

#[test]
fn bounce_back_reflects_the_solid_center_cell() {
    let (w, h) = (3, 3);
    let mut pops = Vec::new();
    for i in 0..9 {
        pops.push(Matrix::new_filled(s(i as i64 + 1, 1), (w, h)));
    }
    let lat = D2Q9::new(pops);
    let mut geo = Geometry::open_box((w, h));
    geo.set(1, 1, true);
    let mut st = State::initial(
        lat,
        geo,
        CollisionOperator::Bgk(BGK { tau: Scalar::from_int(1) }),
        unit_disc(),
        BoundaryMode::ZeroPad,
    );
    st.bounce_back();
    let pops = st.populations();
    for i in 0..9 {
        let o = opposite_index(i);
        for y in 0..h {
            for x in 0..w {
                let v = pops[i].get(x, y);
                if x == 1 && y == 1 {
                    // the reflected population of the same cell
                    assert!(v.eq_value(&s(o as i64 + 1, 1)));
                } else {
                    assert!(v.eq_value(&s(i as i64 + 1, 1)));
                }
            }
        }
    }
}

#[test]
fn collision_at_equilibrium_is_a_no_op() {
    for op in [
        CollisionOperator::Bgk(BGK { tau: Scalar::from_int(1) }),
        CollisionOperator::Trt(TRT::new(&s(1, 4), &s(1, 10), &unit_disc()).unwrap()),
        CollisionOperator::Kbc(KBC::new(s(1, 10))),
        CollisionOperator::Regularized(Regularized::new(CollisionOperator::Kbc(KBC::new(
            s(1, 10),
        )))),
    ] {
        let (w, h) = (4, 3);
        let lat = D2Q9::new(rest_populations(w, h));
        let geo = Geometry::open_box((w, h));
        let mut st = State::initial(lat, geo, op, unit_disc(), BoundaryMode::Wrap);
        st.collide().unwrap();
        let pops = st.populations();
        for i in 0..9 {
            let w_i = weight_of(i);
            for k in 0..pops[i].len() {
                assert!(pops[i].at(k).eq_value(&w_i));
            }
        }
    }
}

#[test]
fn collision_conserves_mass_on_a_perturbed_state() {
    for op in [
        CollisionOperator::Bgk(BGK { tau: Scalar::from_int(1) }),
        CollisionOperator::Trt(TRT::new(&s(1, 4), &s(1, 10), &unit_disc()).unwrap()),
        CollisionOperator::Regularized(Regularized::new(CollisionOperator::Bgk(BGK {
            tau: Scalar::from_int(2),
        }))),
    ] {
        let (w, h) = (3, 3);
        let mut pops = rest_populations(w, h);
        let bumped = pops[0].get(1, 1).add(&s(1, 100)).unwrap();
        pops[0].set(1, 1, bumped);
        let lat = D2Q9::new(pops);
        let geo = Geometry::open_box((w, h));
        let mut st = State::initial(lat, geo, op, unit_disc(), BoundaryMode::Wrap);
        let before = total_mass(&st);
        st.collide().unwrap();
        let after = total_mass(&st);
        assert!(before.eq_value(&after));
    }
}

#[test]
fn uniform_rest_state_is_steady_for_a_hundred_steps() {
    let (w, h) = (10, 10);
    let lat = D2Q9::new(rest_populations(w, h));
    let geo = Geometry::open_box((w, h));
    let mut st = State::initial(
        lat,
        geo,
        CollisionOperator::Bgk(BGK { tau: Scalar::from_int(1) }),
        unit_disc(),
        BoundaryMode::Wrap,
    );
    for _ in 0..100 {
        st.step().unwrap();
        let rho = st.density().unwrap();
        for k in 0..rho.len() {
            assert!(rho.at(k).eq_value(&Scalar::from_int(1)));
        }
        let (vx, vy) = st.velocity().unwrap();
        for k in 0..vx.len() {
            assert!(vx.at(k).is_zero());
            assert!(vy.at(k).is_zero());
        }
        let sp = st.speed_squared().unwrap();
        for k in 0..sp.len() {
            assert!(sp.at(k).is_zero());
        }
        let (mx, my) = st.momentum_density().unwrap();
        for k in 0..mx.len() {
            assert!(mx.at(k).is_zero());
            assert!(my.at(k).is_zero());
        }
    }
    assert!(st.time().eq_value(&Scalar::from_int(100)));
    assert!(!st.is_unstable().unwrap());
}

#[test]
fn single_perturbation_keeps_mass_and_spreads_evenly() {
    let (w, h) = (10, 10);
    let mut pops = rest_populations(w, h);
    let bumped = pops[0].get(5, 5).add(&s(1, 100)).unwrap();
    pops[0].set(5, 5, bumped);
    let lat = D2Q9::new(pops);
    let geo = Geometry::open_box((w, h));
    let mut st = State::initial(
        lat,
        geo,
        CollisionOperator::Bgk(BGK { tau: Scalar::from_int(1) }),
        unit_disc(),
        BoundaryMode::Wrap,
    );
    let before = total_mass(&st);
    st.step().unwrap();
    let after_one = total_mass(&st);
    assert!(before.eq_value(&after_one));
    st.step().unwrap();
    assert!(before.eq_value(&total_mass(&st)));
    // after two steps the perturbation has streamed outward; the four
    // axis neighbors of the bumped cell hold equal densities
    let rho = st.density().unwrap();
    let north = rho.get(5, 4);
    let south = rho.get(5, 6);
    let west = rho.get(4, 5);
    let east = rho.get(6, 5);
    assert!(north.eq_value(&south));
    assert!(north.eq_value(&west));
    assert!(north.eq_value(&east));
}

#[test]
fn solid_obstacle_leaks_no_mass() {
    let (w, h) = (6, 6);
    let pops = flow_populations(w, h, s(1, 50), Scalar::from_int(0));
    let lat = D2Q9::new(pops);
    let mut geo = Geometry::open_box((w, h));
    for y in 2..4 {
        for x in 2..4 {
            geo.set(x, y, true);
        }
    }
    let mut st = State::initial(
        lat,
        geo,
        CollisionOperator::Bgk(BGK { tau: Scalar::from_int(1) }),
        unit_disc(),
        BoundaryMode::Wrap,
    );
    let before = total_mass(&st);
    let mut steps: usize = 0;
    for _ in 0..50 {
        match st.step() {
            Ok(()) => {
                steps += 1;
                // every representable state stays a finite rational;
                // the mass in the whole domain is exactly conserved
                assert!(before.eq_value(&total_mass(&st)));
                let rho = st.density().unwrap();
                for k in 0..rho.len() {
                    assert!(rho.at(k).denom() >= 1);
                }
            }
            // exact arithmetic refuses to round: a state whose reduced
            // fractions outgrow 64-bit components reports overflow
            // instead of silently losing precision
            Err(Error::Overflow) => break,
            Err(e) => panic!("unexpected error {:?}", e),
        }
    }
    assert!(steps >= 1);
}

#[test]
fn pressure_at_rest_is_a_third() {
    let (w, h) = (3, 3);
    let lat = D2Q9::new(rest_populations(w, h));
    let geo = Geometry::open_box((w, h));
    let st = State::initial(
        lat,
        geo,
        CollisionOperator::Bgk(BGK { tau: Scalar::from_int(1) }),
        unit_disc(),
        BoundaryMode::Wrap,
    );
    let p = st.pressure().unwrap();
    for k in 0..p.len() {
        assert!(p.at(k).eq_value(&s(1, 3)));
    }
}

#[test]
fn display_mode_cycles() {
    assert_eq!(DisplayMode::Density.next(), DisplayMode::Speed);
    assert_eq!(DisplayMode::Speed.next(), DisplayMode::Velocity);
    assert_eq!(DisplayMode::Velocity.next(), DisplayMode::MomentumDensity);
    assert_eq!(DisplayMode::MomentumDensity.next(), DisplayMode::Density);
}

#[test]
fn geometry_painting() {
    let mut g = Geometry::open_box((4, 3));
    assert!(!g.is_solid(2, 1));
    g.set(2, 1, true);
    assert!(g.is_solid(2, 1));
    assert!(!g.is_solid(1, 2));
    match Geometry::new(vec![false; 5], (4, 3)) {
        Err(Error::InvalidSliceSize) => {}
        _ => panic!("a 5-cell mask must not cover a 4 by 3 grid"),
    }
}

#[test]
fn stencils_are_one_hot() {
    let dirs = D2Q9::directions();
    for d in &dirs {
        let st = d.stencil();
        assert_eq!(st.get_shape(), (3, 3));
        let mut ones = 0;
        for k in 0..9 {
            if st.at(k).eq_value(&Scalar::from_int(1)) {
                ones += 1;
            } else {
                assert!(st.at(k).is_zero());
            }
        }
        assert_eq!(ones, 1);
    }
}
