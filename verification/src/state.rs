//! The simulation state and its timestep.
//!
//! A step advances the lattice through three phases: streaming moves
//! every population one cell along its direction, bounce-back reflects
//! the populations of solid cells, and collision relaxes each cell
//! towards equilibrium under the configured operator.  The clock then
//! advances by one time step.
//!
//! Indices are row-major: the cell at column `x`, row `y` has linear
//! index `y * width + x`, and a direction with velocity `(cx, cy)`
//! carries its population from `(x - cx, y - cy)` to `(x, y)` during
//! streaming.  At the domain edge the missing upstream neighbor reads
//! as zero under `BoundaryMode::ZeroPad` and wraps around the grid
//! under `BoundaryMode::Wrap`.

use vstd::prelude::*;
use crate::collision::CollisionOperator;
use crate::field::Matrix;
use crate::lattice::D2Q9;
use crate::lattice::Discretization;
use crate::lattice::cell_density;
use crate::lattice::lattice_eq;
use crate::lattice::opposite;
use crate::lattice::spec_cs2;
use crate::lattice::spec_cx;
use crate::lattice::spec_cy;
use crate::scalar::Error;
use crate::scalar::Rat;
use crate::scalar::Scalar;
use crate::scalar::rat_add;
use crate::scalar::rat_eq;
use crate::scalar::rat_int;
use crate::scalar::rat_lt;
use crate::scalar::rat_mul;
use crate::scalar::rat_wf;

verus! {

/// The solid mask of the domain: true cells are impermeable walls.
pub struct Geometry {
    width: usize,
    height: usize,
    cells: Vec<bool>,
}

impl View for Geometry {
    type V = Seq<bool>;

    closed spec fn view(&self) -> Seq<bool> {
        self.cells@
    }
}

impl Clone for Geometry {
    fn clone(&self) -> (r: Geometry)
        ensures
            r.wid() == self.wid(),
            r.hei() == self.hei(),
            r@ == self@,
    {
        proof {
            use_type_invariant(self);
        }
        Geometry { width: self.width, height: self.height, cells: self.cells.clone() }
    }
}

impl Geometry {
    #[verifier::type_invariant]
    pub closed spec fn shape_inv(self) -> bool {
        &&& self.cells@.len() == self.width as int * self.height as int
        &&& self.width as int * self.height as int <= usize::MAX as int
    }

    pub closed spec fn wid(&self) -> nat {
        self.width as nat
    }

    pub closed spec fn hei(&self) -> nat {
        self.height as nat
    }

    /// The mask has one cell per grid point.
    pub proof fn lemma_shape(&self)
        requires
            self.shape_inv(),
        ensures
            self@.len() == self.wid() * self.hei(),
    {
    }

    /// Build a mask from row-major cells; the slice length must equal
    /// `width * height` or the call reports `InvalidSliceSize`.
    pub fn new(cells: Vec<bool>, dims: (usize, usize)) -> (r: Result<Geometry, Error>)
        requires
            dims.0 * dims.1 <= usize::MAX,
        ensures
            r matches Ok(g) ==> g.wid() == dims.0 && g.hei() == dims.1 && g@ == cells@,
            r is Ok <==> cells@.len() == dims.0 * dims.1,
            r matches Err(e) ==> e == Error::InvalidSliceSize,
    {
        let (w, h) = dims;
        if cells.len() != w * h {
            return Err(Error::InvalidSliceSize);
        }
        Ok(Geometry { width: w, height: h, cells })
    }

    /// A mask of the given shape that is fluid everywhere.
    pub fn open_box(dims: (usize, usize)) -> (g: Geometry)
        requires
            dims.0 * dims.1 <= usize::MAX,
        ensures
            g.wid() == dims.0,
            g.hei() == dims.1,
            g@.len() == dims.0 * dims.1,
            forall|k: int| 0 <= k < g@.len() ==> !(#[trigger] g@[k]),
    {
        let (w, h) = dims;
        let n: usize = w * h;
        let mut cells: Vec<bool> = Vec::new();
        let mut i: usize = 0;
        while i < n
            invariant
                i <= n,
                cells@.len() == i,
                forall|k: int| 0 <= k < i ==> !(#[trigger] cells@[k]),
            decreases n - i,
        {
            cells.push(false);
            i = i + 1;
        }
        Geometry { width: w, height: h, cells }
    }

    /// Whether the cell at column `x`, row `y` is solid.
    pub fn is_solid(&self, x: usize, y: usize) -> (r: bool)
        requires
            x < self.wid(),
            y < self.hei(),
        ensures
            r == self@[y * self.wid() + x],
    {
        proof {
            use_type_invariant(self);
            crate::field::lemma_grid_index(x as int, y as int, self.wid() as int,
                self.hei() as int);
        }
        self.cells[y * self.width + x]
    }

    /// Mark the cell at column `x`, row `y` solid or fluid.
    pub fn set(&mut self, x: usize, y: usize, solid: bool)
        requires
            x < old(self).wid(),
            y < old(self).hei(),
        ensures
            final(self).wid() == old(self).wid(),
            final(self).hei() == old(self).hei(),
            final(self)@ == old(self)@.update(y * old(self).wid() + x, solid),
    {
        proof {
            use_type_invariant(&*self);
            crate::field::lemma_grid_index(x as int, y as int, self.wid() as int,
                self.hei() as int);
        }
        let k: usize = y * self.width + x;
        let mut cells = self.cells.clone();
        cells.set(k, solid);
        *self = Geometry { width: self.width, height: self.height, cells };
    }
}

/// How streaming treats the upstream neighbor of a cell at the domain
/// edge.
#[derive(Clone, Copy, PartialEq, Eq, Structural, Debug)]
pub enum BoundaryMode {
    /// The missing neighbor reads as zero, as a clamped convolution
    /// would produce.
    ZeroPad,
    /// The domain is periodic: the neighbor wraps to the other side.
    Wrap,
}

/// The value streamed into cell `(x, y)` for direction `i`: the value
/// the upstream neighbor held, zero or wrapped at the edge.
pub open spec fn streamed_cell(p: Seq<Rat>, w: int, h: int, x: int, y: int, i: int,
    wrap: bool) -> Rat {
    let sx = x - spec_cx(i);
    let sy = y - spec_cy(i);
    if 0 <= sx < w && 0 <= sy < h {
        p[sy * w + sx]
    } else if wrap {
        p[((sy + h) % h) * w + ((sx + w) % w)]
    } else {
        rat_int(0)
    }
}

/// A whole population table after streaming: direction by direction,
/// every cell replaced by its streamed value.
pub open spec fn streamed_pops(p: Seq<Seq<Rat>>, w: int, h: int, wrap: bool)
    -> Seq<Seq<Rat>> {
    Seq::new(9, |i: int| Seq::new((w * h) as nat, |k: int| streamed_cell(
        p[i], w, h, k % w, k / w, i, wrap)))
}

/// A whole population table after bounce-back against the solid mask
/// `geo`: solid cells take the reversed direction's value of the same
/// cell, fluid cells keep their own.
pub open spec fn bounced_pops(p: Seq<Seq<Rat>>, geo: Seq<bool>) -> Seq<Seq<Rat>> {
    Seq::new(9, |i: int| Seq::new(geo.len(), |k: int| if geo[k] {
        p[opposite(i)][k]
    } else {
        p[i][k]
    }))
}

/// A running simulation: the lattice, the solid mask, the collision
/// operator and the discretization, together with the elapsed time.
pub struct State {
    time: Scalar,
    lattice: D2Q9,
    geometry: Geometry,
    collision: CollisionOperator,
    discretization: Discretization,
    boundary: BoundaryMode,
}

impl State {
    /// The mask shape always matches the lattice shape.
    #[verifier::type_invariant]
    pub closed spec fn inv(self) -> bool {
        &&& self.geometry.wid() == self.lattice.spec_size().0
        &&& self.geometry.hei() == self.lattice.spec_size().1
        &&& self.discretization.wf()
    }

    pub closed spec fn lat(&self) -> D2Q9 {
        self.lattice
    }

    pub closed spec fn geo(&self) -> Geometry {
        self.geometry
    }

    pub closed spec fn disc(&self) -> Discretization {
        self.discretization
    }

    pub closed spec fn op(&self) -> CollisionOperator {
        self.collision
    }

    pub closed spec fn spec_time(&self) -> Rat {
        self.time@
    }

    pub closed spec fn spec_boundary(&self) -> BoundaryMode {
        self.boundary
    }

    /// Assemble the initial state at time zero.
    pub fn initial(lattice: D2Q9, geometry: Geometry, collision: CollisionOperator,
        discretization: Discretization, boundary: BoundaryMode) -> (s: State)
        requires
            geometry.wid() == lattice.spec_size().0,
            geometry.hei() == lattice.spec_size().1,
            discretization.wf(),
        ensures
            s.spec_time() == rat_int(0),
            s.lat() == lattice,
            s.geo() == geometry,
            s.op() == collision,
            s.disc() == discretization,
            s.spec_boundary() == boundary,
    {
        State {
            time: Scalar::zero(),
            lattice,
            geometry,
            collision,
            discretization,
            boundary,
        }
    }

    pub fn size(&self) -> (s: (usize, usize))
        ensures
            s.0 == self.lat().spec_size().0,
            s.1 == self.lat().spec_size().1,
    {
        self.lattice.size()
    }

    pub fn time(&self) -> (t: Scalar)
        ensures
            t@ == self.spec_time(),
    {
        self.time
    }

    pub fn delta_x(&self) -> (s: Scalar)
        ensures
            s == self.disc().delta_x,
    {
        self.discretization.delta_x
    }

    pub fn delta_t(&self) -> (s: Scalar)
        ensures
            s == self.disc().delta_t,
    {
        self.discretization.delta_t
    }

    pub fn discretization(&self) -> (d: Discretization)
        ensures
            d == self.disc(),
    {
        self.discretization
    }

    pub fn boundary(&self) -> (b: BoundaryMode)
        ensures
            b == self.spec_boundary(),
    {
        self.boundary
    }

    pub fn geometry(&self) -> (g: &Geometry)
        ensures
            g == self.geo(),
    {
        &self.geometry
    }

    /// Replace the solid mask; the new mask must match the lattice
    /// shape.
    pub fn set_geometry(&mut self, geometry: Geometry)
        requires
            geometry.wid() == old(self).lat().spec_size().0,
            geometry.hei() == old(self).lat().spec_size().1,
        ensures
            final(self).geo() == geometry,
            final(self).lat() == old(self).lat(),
            final(self).spec_time() == old(self).spec_time(),
            final(self).op() == old(self).op(),
            final(self).disc() == old(self).disc(),
            final(self).spec_boundary() == old(self).spec_boundary(),
    {
        proof {
            use_type_invariant(&*self);
        }
        self.geometry = geometry;
    }

    pub fn populations(&self) -> (p: &Vec<Matrix>)
        ensures
            p@.map_values(|m: Matrix| m@) == self.lat().pops(),
            p@.len() == 9,
    {
        self.lattice.populations()
    }

    pub fn density(&self) -> (r: Result<Matrix, Error>)
        ensures
            r matches Ok(m) ==> m@.len() == self.lat().n_cells()
                && forall|k: int| 0 <= k < self.lat().n_cells()
                    ==> rat_eq(#[trigger] m@[k], cell_density(self.lat().cell(k))),
            r matches Err(e) ==> e == Error::Overflow,
    {
        self.lattice.density()
    }

    /// The lattice itself, for the derived-field accessors it offers.
    pub fn lattice(&self) -> (l: &D2Q9)
        ensures
            l == self.lat(),
    {
        &self.lattice
    }

    pub fn momentum_density(&self) -> (r: Result<(Matrix, Matrix), Error>)
        ensures
            r matches Ok((mx, my)) ==> mx@.len() == self.lat().n_cells()
                && my@.len() == self.lat().n_cells()
                && (forall|k: int| 0 <= k < self.lat().n_cells()
                    ==> rat_eq(#[trigger] mx@[k],
                        crate::lattice::cell_momentum_x(self.lat().cell(k))))
                && (forall|k: int| 0 <= k < self.lat().n_cells()
                    ==> rat_eq(#[trigger] my@[k],
                        crate::lattice::cell_momentum_y(self.lat().cell(k)))),
            r matches Err(e) ==> e == Error::Overflow,
    {
        let (mx, my) = match self.lattice.momentum_density() {
            Ok(p) => p,
            Err(e) => {
                return Err(e);
            },
        };
        Ok((mx, my))
    }

    /// Velocity fields; a cell of exactly zero density is reported as
    /// `DivisionByZero`, and that error only arises from such a cell.
    pub fn velocity(&self) -> (r: Result<(Matrix, Matrix), Error>)
        ensures
            r matches Ok((vx, vy)) ==> vx@.len() == self.lat().n_cells()
                && vy@.len() == self.lat().n_cells()
                && (forall|k: int| 0 <= k < self.lat().n_cells()
                    ==> rat_eq(#[trigger] vx@[k],
                        crate::lattice::cell_velocity_x(self.lat().cell(k))))
                && (forall|k: int| 0 <= k < self.lat().n_cells()
                    ==> rat_eq(#[trigger] vy@[k],
                        crate::lattice::cell_velocity_y(self.lat().cell(k)))),
            r is Ok ==> forall|k: int| 0 <= k < self.lat().n_cells()
                ==> cell_density(#[trigger] self.lat().cell(k)).n != 0,
            r == Err::<(Matrix, Matrix), Error>(Error::DivisionByZero)
                ==> exists|k: int| 0 <= k < self.lat().n_cells()
                    && cell_density(#[trigger] self.lat().cell(k)).n == 0,
            r matches Err(e) ==> e == Error::Overflow || e == Error::DivisionByZero,
    {
        let (vx, vy) = match self.lattice.velocity() {
            Ok(p) => p,
            Err(e) => {
                proof {
                    if e == Error::DivisionByZero {
                        let k0 = choose|k: int| 0 <= k < self.lattice.n_cells()
                            && cell_density(#[trigger] self.lattice.cell(k)).n == 0;
                        assert(cell_density(self.lat().cell(k0)).n == 0);
                    }
                }
                return Err(e);
            },
        };
        Ok((vx, vy))
    }

    /// The squared flow speed of every cell: `vx^2 + vy^2`.  The speed
    /// itself is an irrational square root; the square is exact.
    pub fn speed_squared(&self) -> (r: Result<Matrix, Error>)
        ensures
            r matches Ok(m) ==> m@.len() == self.lat().n_cells()
                && forall|k: int| 0 <= k < self.lat().n_cells()
                    ==> rat_eq(
                        #[trigger] m@[k],
                        rat_add(
                            rat_mul(
                                crate::lattice::cell_velocity_x(self.lat().cell(k)),
                                crate::lattice::cell_velocity_x(self.lat().cell(k))),
                            rat_mul(
                                crate::lattice::cell_velocity_y(self.lat().cell(k)),
                                crate::lattice::cell_velocity_y(self.lat().cell(k))))),
            r matches Err(e) ==> e == Error::Overflow || e == Error::DivisionByZero,
    {
        proof {
            use_type_invariant(self);
            use_type_invariant(&self.lattice);
            self.lattice.lemma_wf();
        }
        let (vx, vy) = match self.lattice.velocity() {
            Ok(p) => p,
            Err(e) => {
                return Err(e);
            },
        };
        let n: usize = vx.len();
        let mut cells: Vec<Scalar> = Vec::new();
        let mut k: usize = 0;
        while k < n
            invariant
                self.lattice.inv(),
                n == self.lat().n_cells(),
                vx@.len() == n,
                vy@.len() == n,
                forall|j: int| 0 <= j < n ==> rat_eq(#[trigger] vx@[j],
                    crate::lattice::cell_velocity_x(self.lat().cell(j))),
                forall|j: int| 0 <= j < n ==> rat_eq(#[trigger] vy@[j],
                    crate::lattice::cell_velocity_y(self.lat().cell(j))),
                forall|j: int| 0 <= j < n
                    ==> cell_density(#[trigger] self.lat().cell(j)).n != 0,
                k <= n,
                cells@.len() == k,
                forall|j: int| 0 <= j < k
                    ==> rat_eq(
                        (#[trigger] cells@[j])@,
                        rat_add(
                            rat_mul(
                                crate::lattice::cell_velocity_x(self.lat().cell(j)),
                                crate::lattice::cell_velocity_x(self.lat().cell(j))),
                            rat_mul(
                                crate::lattice::cell_velocity_y(self.lat().cell(j)),
                                crate::lattice::cell_velocity_y(self.lat().cell(j))))),
            decreases n - k,
        {
            let a = vx.at(k);
            let b = vy.at(k);
            let a2 = match a.mul(&a) {
                Ok(s) => s,
                Err(e) => {
                    return Err(e);
                },
            };
            let b2 = match b.mul(&b) {
                Ok(s) => s,
                Err(e) => {
                    return Err(e);
                },
            };
            let s2 = match a2.add(&b2) {
                Ok(s) => s,
                Err(e) => {
                    return Err(e);
                },
            };
            proof {
                use_type_invariant(a);
                use_type_invariant(b);
                use_type_invariant(a2);
                use_type_invariant(b2);
                use_type_invariant(s2);
                let c = self.lat().cell(k as int);
                self.lattice.lemma_wf();
                crate::lattice::lemma_cell_partials_wf(c, 9, true);
                crate::lattice::lemma_cell_partials_wf(c, 9, false);
                crate::scalar::lemma_rat_op_wf(crate::lattice::cell_momentum_x(c),
                    cell_density(c));
                crate::scalar::lemma_rat_op_wf(crate::lattice::cell_momentum_y(c),
                    cell_density(c));
                crate::scalar::lemma_rewrite_mul(
                    a2@, a@, a@,
                    crate::lattice::cell_velocity_x(c), crate::lattice::cell_velocity_x(c));
                crate::scalar::lemma_rewrite_mul(
                    b2@, b@, b@,
                    crate::lattice::cell_velocity_y(c), crate::lattice::cell_velocity_y(c));
                crate::scalar::lemma_rat_op_wf(
                    crate::lattice::cell_velocity_x(c), crate::lattice::cell_velocity_x(c));
                crate::scalar::lemma_rat_op_wf(
                    crate::lattice::cell_velocity_y(c), crate::lattice::cell_velocity_y(c));
                crate::scalar::lemma_rewrite_add(
                    s2@, a2@, b2@,
                    rat_mul(crate::lattice::cell_velocity_x(c),
                        crate::lattice::cell_velocity_x(c)),
                    rat_mul(crate::lattice::cell_velocity_y(c),
                        crate::lattice::cell_velocity_y(c)));
            }
            cells.push(s2);
            k = k + 1;
        }
        match Matrix::new(cells, self.lattice.size()) {
            Ok(m) => Ok(m),
            Err(e) => {
                proof {
                    assert(false);
                }
                Err(e)
            },
        }
    }

    pub fn equilibrium(&self) -> (r: Result<Vec<Matrix>, Error>)
        ensures
            r matches Ok(v) ==> v@.len() == 9
                && (forall|i: int, k: int| 0 <= i < 9 && 0 <= k < self.lat().n_cells()
                    ==> rat_eq(
                        #[trigger] v@[i]@[k],
                        lattice_eq(self.lat(), i, k,
                            spec_cs2(self.disc().delta_x@, self.disc().delta_t@)))),
            r matches Err(e) ==> e == Error::Overflow || e == Error::DivisionByZero,
    {
        proof {
            use_type_invariant(self);
        }
        self.lattice.equilibrium(&self.discretization)
    }

    pub fn non_equilibrium(&self) -> (r: Result<Vec<Matrix>, Error>)
        ensures
            r matches Ok(v) ==> v@.len() == 9
                && (forall|i: int, k: int| 0 <= i < 9 && 0 <= k < self.lat().n_cells()
                    ==> rat_eq(
                        #[trigger] v@[i]@[k],
                        crate::scalar::rat_sub(
                            self.lat().pops()[i][k],
                            lattice_eq(self.lat(), i, k,
                                spec_cs2(self.disc().delta_x@, self.disc().delta_t@))))),
            r matches Err(e) ==> e == Error::Overflow || e == Error::DivisionByZero,
    {
        proof {
            use_type_invariant(self);
        }
        self.lattice.non_equilibrium(&self.discretization)
    }

    /// Pressure field: `cs2` times the density.
    pub fn pressure(&self) -> (r: Result<Matrix, Error>)
        ensures
            r matches Ok(m) ==> m@.len() == self.lat().n_cells()
                && forall|k: int| 0 <= k < self.lat().n_cells()
                    ==> rat_eq(
                        #[trigger] m@[k],
                        rat_mul(
                            cell_density(self.lat().cell(k)),
                            spec_cs2(self.disc().delta_x@, self.disc().delta_t@))),
            r matches Err(e) ==> e == Error::Overflow,
    {
        proof {
            use_type_invariant(self);
        }
        let ghost gcs2 = spec_cs2(self.disc().delta_x@, self.disc().delta_t@);
        let cs2 = match self.discretization.isothermal_speed_of_sound_squared() {
            Ok(s) => s,
            Err(e) => {
                return Err(e);
            },
        };
        let rho = match self.lattice.density() {
            Ok(m) => m,
            Err(e) => {
                return Err(e);
            },
        };
        let res = match rho.scale(&cs2) {
            Ok(m) => m,
            Err(e) => {
                return Err(e);
            },
        };
        proof {
            use_type_invariant(&res);
            res.lemma_cells_wf();
            use_type_invariant(&rho);
            rho.lemma_cells_wf();
            use_type_invariant(cs2);
            use_type_invariant(self.discretization.delta_x);
            use_type_invariant(self.discretization.delta_t);
            crate::lattice::lemma_cs2_pos(
                self.discretization.delta_x@, self.discretization.delta_t@);
            use_type_invariant(&self.lattice);
            assert forall|k: int| 0 <= k < self.lat().n_cells()
                implies rat_eq(#[trigger] res@[k],
                    rat_mul(cell_density(self.lat().cell(k)), gcs2)) by {
                self.lattice.lemma_wf();
                crate::lattice::lemma_cell_partials_wf(self.lat().cell(k), 9, true);
                crate::scalar::lemma_rewrite_mul(
                    res@[k], rho@[k], cs2@, cell_density(self.lat().cell(k)), gcs2);
            }
        }
        Ok(res)
    }

    /// Early-warning heuristic for numerical blow-up: whether any
    /// equilibrium population of any direction is negative anywhere.
    pub fn is_unstable(&self) -> (r: Result<bool, Error>)
        ensures
            r matches Ok(b) ==> (b <==> exists|i: int, k: int| 0 <= i < 9
                && 0 <= k < self.lat().n_cells()
                && rat_lt(
                    #[trigger] lattice_eq(self.lat(), i, k,
                        spec_cs2(self.disc().delta_x@, self.disc().delta_t@)),
                    rat_int(0))),
            r matches Err(e) ==> e == Error::Overflow || e == Error::DivisionByZero,
    {
        proof {
            use_type_invariant(self);
            use_type_invariant(&self.lattice);
            use_type_invariant(self.discretization.delta_x);
            use_type_invariant(self.discretization.delta_t);
        }
        let ghost gcs2 = spec_cs2(self.disc().delta_x@, self.disc().delta_t@);
        let eqs = match self.lattice.equilibrium(&self.discretization) {
            Ok(v) => v,
            Err(e) => {
                return Err(e);
            },
        };
        let mut i: usize = 0;
        while i < 9
            invariant
                self.lattice.inv(),
                self.disc().wf(),
                rat_wf(self.disc().delta_x@),
                rat_wf(self.disc().delta_t@),
                forall|k: int| 0 <= k < self.lat().n_cells()
                    ==> cell_density(#[trigger] self.lat().cell(k)).n != 0,
                eqs@.len() == 9,
                forall|j: int| 0 <= j < 9 ==> (#[trigger] eqs@[j])@.len()
                    == self.lat().n_cells(),
                forall|j: int, k: int| 0 <= j < 9 && 0 <= k < self.lat().n_cells()
                    ==> rat_wf(#[trigger] eqs@[j]@[k]),
                forall|j: int, k: int| 0 <= j < 9 && 0 <= k < self.lat().n_cells()
                    ==> rat_eq(#[trigger] eqs@[j]@[k], lattice_eq(self.lat(), j, k, gcs2)),
                gcs2 == spec_cs2(self.disc().delta_x@, self.disc().delta_t@),
                i <= 9,
                forall|j: int, k: int| 0 <= j < i && 0 <= k < self.lat().n_cells()
                    ==> !rat_lt(#[trigger] lattice_eq(self.lat(), j, k, gcs2), rat_int(0)),
            decreases 9 - i,
        {
            let m = &eqs[i];
            if m.has_negative() {
                proof {
                    use_type_invariant(m);
                    m.lemma_cells_wf();
                    self.lattice.lemma_wf();
                    let k0 = choose|k: int| 0 <= k < m@.len()
                        && rat_lt(#[trigger] m@[k], rat_int(0));
                    crate::lattice::lemma_lattice_eq_wf(self.lat(), i as int, k0,
                        self.disc().delta_x@, self.disc().delta_t@);
                    lemma_sign_transfer(m@[k0], lattice_eq(self.lat(), i as int, k0, gcs2));
                }
                return Ok(true);
            }
            proof {
                use_type_invariant(m);
                m.lemma_cells_wf();
                self.lattice.lemma_wf();
                assert forall|k: int| 0 <= k < self.lat().n_cells()
                    implies !rat_lt(#[trigger] lattice_eq(self.lat(), i as int, k, gcs2),
                        rat_int(0)) by {
                    crate::lattice::lemma_lattice_eq_wf(self.lat(), i as int, k,
                        self.disc().delta_x@, self.disc().delta_t@);
                    lemma_sign_transfer(m@[k], lattice_eq(self.lat(), i as int, k, gcs2));
                }
            }
            i = i + 1;
        }
        Ok(false)
    }

    /// Streaming: every population moves one cell along its direction.
    pub fn stream(&mut self)
        ensures
            final(self).lat().spec_size() == old(self).lat().spec_size(),
            final(self).geo() == old(self).geo(),
            final(self).spec_time() == old(self).spec_time(),
            final(self).op() == old(self).op(),
            final(self).disc() == old(self).disc(),
            final(self).spec_boundary() == old(self).spec_boundary(),
            final(self).lat().pops().len() == 9,
            forall|i: int, x: int, y: int| 0 <= i < 9
                && 0 <= x < old(self).lat().spec_size().0
                && 0 <= y < old(self).lat().spec_size().1
                ==> #[trigger] final(self).lat().pops()[i][y * old(self).lat().spec_size().0
                    + x]
                    == streamed_cell(
                        old(self).lat().pops()[i],
                        old(self).lat().spec_size().0 as int,
                        old(self).lat().spec_size().1 as int,
                        x, y, i,
                        old(self).spec_boundary() == BoundaryMode::Wrap),
    {
        proof {
            use_type_invariant(&*self);
            use_type_invariant(&self.lattice);
            self.lattice.lemma_wf();
        }
        let (w, h) = self.lattice.size();
        let ghost gw = w as int;
        let ghost gh = h as int;
        let wrap = match self.boundary {
            BoundaryMode::Wrap => true,
            BoundaryMode::ZeroPad => false,
        };
        let zero = Scalar::zero();
        let mut pops: Vec<Matrix> = Vec::new();
        let mut i: usize = 0;
        while i < 9
            invariant
                self.lattice.inv(),
                w == self.lattice.spec_size().0,
                h == self.lattice.spec_size().1,
                gw == w as int,
                gh == h as int,
                wrap == (self.spec_boundary() == BoundaryMode::Wrap),
                zero@ == rat_int(0),
                i <= 9,
                pops@.len() == i,
                forall|j: int| 0 <= j < i ==> (#[trigger] pops@[j]).wid() == w as nat
                    && pops@[j].hei() == h as nat,
                forall|j: int, x: int, y: int| 0 <= j < i && 0 <= x < gw && 0 <= y < gh
                    ==> #[trigger] pops@[j]@[y * gw + x]
                        == streamed_cell(self.lattice.pops()[j], gw, gh, x, y, j, wrap),
            decreases 9 - i,
        {
            let cx = D2Q9::velocity_x_offset(i);
            let cy = D2Q9::velocity_y_offset(i);
            let src = self.lattice.population(i);
            proof {
                use_type_invariant(src);
                src.lemma_cells_wf();
            }
            let mut cells: Vec<Scalar> = Vec::new();
            let mut y: usize = 0;
            while y < h
                invariant
                    self.lattice.inv(),
                    w == self.lattice.spec_size().0,
                    h == self.lattice.spec_size().1,
                    gw == w as int,
                    gh == h as int,
                    i < 9,
                    cx as int == spec_cx(i as int),
                    cy as int == spec_cy(i as int),
                    zero@ == rat_int(0),
                    src@ == self.lattice.pops()[i as int],
                    src@.len() == w as int * h as int,
                    src.wid() == w as nat,
                    src.hei() == h as nat,
                    y <= h,
                    cells@.len() == y * gw,
                    forall|x2: int, y2: int| 0 <= x2 < gw && 0 <= y2 < y
                        ==> #[trigger] cells@[y2 * gw + x2]@
                            == streamed_cell(src@, gw, gh, x2, y2, i as int, wrap),
                decreases h - y,
            {
                let mut x: usize = 0;
                while x < w
                    invariant
                        self.lattice.inv(),
                        w == self.lattice.spec_size().0,
                        h == self.lattice.spec_size().1,
                        gw == w as int,
                        gh == h as int,
                        i < 9,
                        cx as int == spec_cx(i as int),
                        cy as int == spec_cy(i as int),
                        zero@ == rat_int(0),
                        src@ == self.lattice.pops()[i as int],
                        src@.len() == w as int * h as int,
                        src.wid() == w as nat,
                        src.hei() == h as nat,
                        y < h,
                        x <= w,
                        cells@.len() == y * gw + x,
                        forall|x2: int, y2: int| 0 <= x2 < gw && 0 <= y2 < y
                            ==> #[trigger] cells@[y2 * gw + x2]@
                                == streamed_cell(src@, gw, gh, x2, y2, i as int, wrap),
                        forall|x2: int| 0 <= x2 < x
                            ==> #[trigger] cells@[y * gw + x2]@
                                == streamed_cell(src@, gw, gh, x2, y as int, i as int, wrap),
                    decreases w - x,
                {
                    proof {
                        crate::field::lemma_grid_index(x as int, y as int, gw, gh);
                    }
                    let sx: i128 = x as i128 - cx as i128;
                    let sy: i128 = y as i128 - cy as i128;
                    let val: Scalar = if sx >= 0 && sx < w as i128 && sy >= 0
                        && sy < h as i128 {
                        proof {
                            crate::field::lemma_grid_index(sx as int, sy as int, gw, gh);
                        }
                        src.get(sx as usize, sy as usize)
                    } else if wrap {
                        let wx: usize = ((sx + w as i128) % w as i128) as usize;
                        let wy: usize = ((sy + h as i128) % h as i128) as usize;
                        proof {
                            vstd::arithmetic::div_mod::lemma_mod_bound(
                                sx + w as int, w as int);
                            vstd::arithmetic::div_mod::lemma_mod_bound(
                                sy + h as int, h as int);
                            crate::field::lemma_grid_index(wx as int, wy as int, gw, gh);
                        }
                        src.get(wx, wy)
                    } else {
                        zero
                    };
                    cells.push(val);
                    proof {
                        assert(cells@.len() == y * gw + x + 1);
                        assert(cells@[y * gw + x as int]@
                            == streamed_cell(src@, gw, gh, x as int, y as int, i as int,
                                wrap));
                        assert forall|x2: int, y2: int| 0 <= x2 < gw && 0 <= y2 < y
                            implies #[trigger] cells@[y2 * gw + x2]@
                                == streamed_cell(src@, gw, gh, x2, y2, i as int, wrap) by {
                            crate::field::lemma_grid_index(x2, y2, gw, gh);
                            assert(y2 * gw + x2 < y * gw) by (nonlinear_arith)
                                requires
                                    0 <= x2 < gw,
                                    0 <= y2 < y,
                            {
                            }
                        }
                    }
                    x = x + 1;
                }
                y = y + 1;
                proof {
                    assert(cells@.len() == (y - 1) * gw + gw);
                    assert((y - 1) * gw + gw == y * gw) by (nonlinear_arith)
                        requires
                            cells@.len() == (y - 1) * gw + gw,
                    {
                    }
                }
            }
            proof {
                assert(cells@.len() == gh * gw);
                assert(gh * gw == gw * gh) by (nonlinear_arith);
            }
            let m = match Matrix::new(cells, (w, h)) {
                Ok(m) => m,
                Err(_) => {
                    proof {
                        assert(false);
                    }
                    Matrix::new_filled(zero, (w, h))
                },
            };
            pops.push(m);
            proof {
                assert forall|x2: int, y2: int| 0 <= x2 < gw && 0 <= y2 < gh
                    implies #[trigger] pops@[i as int]@[y2 * gw + x2]
                        == streamed_cell(src@, gw, gh, x2, y2, i as int, wrap) by {
                    crate::field::lemma_grid_index(x2, y2, gw, gh);
                }
            }
            i = i + 1;
        }
        self.lattice.set_populations(pops);
        proof {
            assert forall|j: int, x: int, y: int| 0 <= j < 9 && 0 <= x < gw && 0 <= y < gh
                implies #[trigger] self.lattice.pops()[j][y * gw + x]
                    == streamed_cell(old(self).lat().pops()[j], gw, gh, x, y, j, wrap) by {
                crate::field::lemma_grid_index(x, y, gw, gh);
            }
        }
    }

    /// Bounce-back: at every solid cell, each population is replaced by
    /// the population of the reversed direction of the same cell; fluid
    /// cells are untouched.
    pub fn bounce_back(&mut self)
        ensures
            final(self).lat().spec_size() == old(self).lat().spec_size(),
            final(self).geo() == old(self).geo(),
            final(self).spec_time() == old(self).spec_time(),
            final(self).op() == old(self).op(),
            final(self).disc() == old(self).disc(),
            final(self).spec_boundary() == old(self).spec_boundary(),
            final(self).lat().pops().len() == 9,
            forall|i: int, k: int| 0 <= i < 9 && 0 <= k < old(self).lat().n_cells()
                ==> #[trigger] final(self).lat().pops()[i][k]
                    == if old(self).geo()@[k] {
                        old(self).lat().pops()[opposite(i)][k]
                    } else {
                        old(self).lat().pops()[i][k]
                    },
    {
        proof {
            use_type_invariant(&*self);
            use_type_invariant(&self.lattice);
            self.lattice.lemma_wf();
            use_type_invariant(&self.geometry);
            self.geometry.lemma_shape();
        }
        let (w, h) = self.lattice.size();
        let n: usize = self.lattice.population(0).len();
        let mut pops: Vec<Matrix> = Vec::new();
        let mut i: usize = 0;
        while i < 9
            invariant
                self.lattice.inv(),
                self.geometry.shape_inv(),
                w == self.lattice.spec_size().0,
                h == self.lattice.spec_size().1,
                self.geometry.wid() == w as nat,
                self.geometry.hei() == h as nat,
                n == self.lattice.n_cells(),
                self.geometry@.len() == n,
                i <= 9,
                pops@.len() == i,
                forall|j: int| 0 <= j < i ==> (#[trigger] pops@[j]).wid() == w as nat
                    && pops@[j].hei() == h as nat,
                forall|j: int, k: int| 0 <= j < i && 0 <= k < n
                    ==> #[trigger] pops@[j]@[k]
                        == if self.geometry@[k] {
                            self.lattice.pops()[opposite(j)][k]
                        } else {
                            self.lattice.pops()[j][k]
                        },
            decreases 9 - i,
        {
            let o = crate::lattice::opposite_index(i);
            let straight = self.lattice.population(i);
            let reversed = self.lattice.population(o);
            proof {
                use_type_invariant(straight);
                straight.lemma_cells_wf();
                use_type_invariant(reversed);
                reversed.lemma_cells_wf();
            }
            let mut cells: Vec<Scalar> = Vec::new();
            let mut y: usize = 0;
            while y < h
                invariant
                    self.lattice.inv(),
                    self.geometry.shape_inv(),
                    w == self.lattice.spec_size().0,
                    h == self.lattice.spec_size().1,
                    self.geometry.wid() == w as nat,
                    self.geometry.hei() == h as nat,
                    n == self.lattice.n_cells(),
                    self.geometry@.len() == n,
                    n == w as int * h as int,
                    i < 9,
                    o == opposite(i as int),
                    straight@ == self.lattice.pops()[i as int],
                    reversed@ == self.lattice.pops()[o as int],
                    straight@.len() == n,
                    reversed@.len() == n,
                    straight.wid() == w as nat,
                    straight.hei() == h as nat,
                    reversed.wid() == w as nat,
                    reversed.hei() == h as nat,
                    y <= h,
                    cells@.len() == y * w,
                    forall|k: int| 0 <= k < y * w
                        ==> #[trigger] cells@[k]@
                            == if self.geometry@[k] {
                                reversed@[k]
                            } else {
                                straight@[k]
                            },
                decreases h - y,
            {
                let mut x: usize = 0;
                while x < w
                    invariant
                        self.lattice.inv(),
                        self.geometry.shape_inv(),
                        w == self.lattice.spec_size().0,
                        h == self.lattice.spec_size().1,
                        self.geometry.wid() == w as nat,
                        self.geometry.hei() == h as nat,
                        n == self.lattice.n_cells(),
                        self.geometry@.len() == n,
                        n == w as int * h as int,
                        i < 9,
                        o == opposite(i as int),
                        straight@ == self.lattice.pops()[i as int],
                        reversed@ == self.lattice.pops()[o as int],
                        straight@.len() == n,
                        reversed@.len() == n,
                        straight.wid() == w as nat,
                        straight.hei() == h as nat,
                        reversed.wid() == w as nat,
                        reversed.hei() == h as nat,
                        y < h,
                        x <= w,
                        cells@.len() == y * w + x,
                        forall|k: int| 0 <= k < y * w + x
                            ==> #[trigger] cells@[k]@
                                == if self.geometry@[k] {
                                    reversed@[k]
                                } else {
                                    straight@[k]
                                },
                    decreases w - x,
                {
                    proof {
                        crate::field::lemma_grid_index(x as int, y as int, w as int, h as int);
                    }
                    let solid = self.geometry.is_solid(x, y);
                    let val = if solid {
                        reversed.get(x, y)
                    } else {
                        straight.get(x, y)
                    };
                    cells.push(val);
                    x = x + 1;
                }
                y = y + 1;
                proof {
                    assert((y - 1) * w + w == y * w) by (nonlinear_arith)
                        requires
                            cells@.len() == (y - 1) * w + w,
                    {
                    }
                }
            }
            proof {
                assert(cells@.len() == h as int * w as int);
                assert(h as int * w as int == w as int * h as int) by (nonlinear_arith);
            }
            let m = match Matrix::new(cells, (w, h)) {
                Ok(m) => m,
                Err(_) => {
                    proof {
                        assert(false);
                    }
                    Matrix::new_filled(Scalar::zero(), (w, h))
                },
            };
            pops.push(m);
            i = i + 1;
        }
        self.lattice.set_populations(pops);
    }

    /// Collision: compute the equilibrium and let the configured
    /// operator produce the post-collision populations.
    pub fn collide(&mut self) -> (r: Result<(), Error>)
        ensures
            final(self).geo() == old(self).geo(),
            final(self).spec_time() == old(self).spec_time(),
            final(self).op() == old(self).op(),
            final(self).disc() == old(self).disc(),
            final(self).spec_boundary() == old(self).spec_boundary(),
            final(self).lat().spec_size() == old(self).lat().spec_size(),
            r is Ok ==> final(self).lat().pops().len() == 9,
            r is Ok ==> crate::collision::op_applies(
                old(self).op(),
                old(self).lat().pops(),
                final(self).lat().pops(),
                old(self).lat().n_cells(),
                old(self).disc().delta_x@,
                old(self).disc().delta_t@,
            ),
            old(self).op() matches CollisionOperator::Bgk(b)
                ==> r is Ok ==> forall|i: int, k: int| 0 <= i < 9
                    && 0 <= k < old(self).lat().n_cells()
                    ==> rat_eq(
                        #[trigger] final(self).lat().pops()[i][k],
                        crate::collision::bgk_cell(
                            old(self).lat().pops()[i][k],
                            lattice_eq(old(self).lat(), i, k,
                                spec_cs2(old(self).disc().delta_x@,
                                    old(self).disc().delta_t@)),
                            old(self).disc().delta_t@,
                            b.tau@)),
            old(self).op() matches CollisionOperator::Trt(t)
                ==> r is Ok ==> forall|i: int, k: int| 0 <= i < 9
                    && 0 <= k < old(self).lat().n_cells()
                    ==> rat_eq(
                        #[trigger] final(self).lat().pops()[i][k],
                        crate::collision::trt_cell(
                            old(self).lat().pops()[i][k],
                            old(self).lat().pops()[opposite(i)][k],
                            lattice_eq(old(self).lat(), i, k,
                                spec_cs2(old(self).disc().delta_x@,
                                    old(self).disc().delta_t@)),
                            lattice_eq(old(self).lat(), opposite(i), k,
                                spec_cs2(old(self).disc().delta_x@,
                                    old(self).disc().delta_t@)),
                            old(self).disc().delta_t@, t.tau_plus@, t.tau_minus@)),
            old(self).op() matches CollisionOperator::Kbc(kb)
                ==> r is Ok ==> forall|i: int, k: int| 0 <= i < 9
                    && 0 <= k < old(self).lat().n_cells()
                    ==> rat_eq(
                        #[trigger] final(self).lat().pops()[i][k],
                        crate::collision::kbc_cell_out(
                            old(self).lat(), i, k, old(self).disc().delta_x@,
                            spec_cs2(old(self).disc().delta_x@, old(self).disc().delta_t@),
                            kb.ks_viscosity@)),
            r matches Err(e) ==> e == Error::Overflow || e == Error::DivisionByZero,
    {
        proof {
            use_type_invariant(&*self);
            use_type_invariant(&self.lattice);
            self.lattice.lemma_wf();
        }
        let eqs = match self.lattice.equilibrium(&self.discretization) {
            Ok(v) => v,
            Err(e) => {
                return Err(e);
            },
        };
        let fresh = match self.collision.evaluate(&self.lattice, &eqs, &self.discretization) {
            Ok(v) => v,
            Err(e) => {
                return Err(e);
            },
        };
        match &self.collision {
            CollisionOperator::Bgk(bb) => {
                proof {
                    use_type_invariant(bb.tau);
                    use_type_invariant(self.discretization.delta_x);
                    use_type_invariant(self.discretization.delta_t);
                    assert forall|i: int, k: int| 0 <= i < 9
                        && 0 <= k < old(self).lat().n_cells()
                        implies rat_eq(
                            #[trigger] fresh@[i]@[k],
                            crate::collision::bgk_cell(
                                old(self).lat().pops()[i][k],
                                lattice_eq(old(self).lat(), i, k,
                                    spec_cs2(old(self).disc().delta_x@,
                                        old(self).disc().delta_t@)),
                                old(self).disc().delta_t@, bb.tau@)) by {
                        let gcs2 = spec_cs2(old(self).disc().delta_x@,
                            old(self).disc().delta_t@);
                        let gE = lattice_eq(old(self).lat(), i, k, gcs2);
                        crate::lattice::lemma_lattice_eq_wf(
                            old(self).lat(), i, k, old(self).disc().delta_x@,
                            old(self).disc().delta_t@);
                        crate::collision::lemma_bgk_cong(
                            fresh@[i]@[k], old(self).lat().pops()[i][k], eqs@[i]@[k], gE,
                            old(self).disc().delta_t@, bb.tau@);
                    }
                }
            },
            _ => {
            },
        }
        self.lattice.set_populations(fresh);
        Ok(())
    }

    /// One full timestep: stream, bounce back, collide, then advance
    /// the clock by `delta_t`.  On success the final populations are
    /// the configured operator's collision applied to the bounce-back
    /// of the streamed old populations — the three phases composed in
    /// that order.
    pub fn step(&mut self) -> (r: Result<(), Error>)
        ensures
            final(self).geo() == old(self).geo(),
            final(self).op() == old(self).op(),
            final(self).disc() == old(self).disc(),
            final(self).spec_boundary() == old(self).spec_boundary(),
            final(self).lat().spec_size() == old(self).lat().spec_size(),
            r is Ok ==> crate::collision::op_applies(
                old(self).op(),
                bounced_pops(
                    streamed_pops(
                        old(self).lat().pops(),
                        old(self).lat().spec_size().0 as int,
                        old(self).lat().spec_size().1 as int,
                        old(self).spec_boundary() == BoundaryMode::Wrap,
                    ),
                    old(self).geo()@,
                ),
                final(self).lat().pops(),
                old(self).lat().n_cells(),
                old(self).disc().delta_x@,
                old(self).disc().delta_t@,
            ),
            r is Ok ==> rat_eq(
                final(self).spec_time(),
                rat_add(old(self).spec_time(), old(self).disc().delta_t@)),
            r matches Err(e) ==> e == Error::Overflow || e == Error::DivisionByZero,
    {
        proof {
            use_type_invariant(&*self);
            use_type_invariant(&self.lattice);
            self.lattice.lemma_wf();
            use_type_invariant(&self.geometry);
            self.geometry.lemma_shape();
        }
        let ghost p0 = self.lat().pops();
        let ghost gw = self.lat().spec_size().0 as int;
        let ghost gh = self.lat().spec_size().1 as int;
        let ghost gn = self.lat().n_cells();
        let ghost wrapb = self.spec_boundary() == BoundaryMode::Wrap;
        let ghost ggeo = self.geo()@;
        self.stream();
        proof {
            use_type_invariant(&self.lattice);
            self.lattice.lemma_wf();
            let s1 = self.lat().pops();
            let t1 = streamed_pops(p0, gw, gh, wrapb);
            assert forall|i: int| 0 <= i < 9 implies s1[i] == t1[i] by {
                assert forall|k: int| 0 <= k < gn implies s1[i][k] == t1[i][k] by {
                    vstd::arithmetic::div_mod::lemma_fundamental_div_mod(k, gw);
                    assert(gw > 0 && gh > 0) by (nonlinear_arith)
                        requires
                            0 <= k < gw * gh,
                            gw >= 0,
                            gh >= 0,
                    {
                    }
                    vstd::arithmetic::div_mod::lemma_mod_bound(k, gw);
                    let x = k % gw;
                    let y = k / gw;
                    assert(y < gh) by (nonlinear_arith)
                        requires
                            k < gw * gh,
                            0 <= k,
                            gw > 0,
                            gh > 0,
                            y == k / gw,
                            k == gw * y + x,
                            0 <= x < gw,
                    {
                    }
                    assert(y >= 0) by {
                        vstd::arithmetic::div_mod::lemma_div_pos_is_pos(k, gw);
                    }
                    assert(y * gw + x == k) by (nonlinear_arith)
                        requires
                            k == gw * y + x,
                    {
                    }
                }
                assert(s1[i] =~= t1[i]);
            }
            assert(s1 =~= t1);
        }
        let ghost p1 = self.lat().pops();
        self.bounce_back();
        proof {
            use_type_invariant(&self.lattice);
            self.lattice.lemma_wf();
            let s2 = self.lat().pops();
            let t2 = bounced_pops(p1, ggeo);
            assert forall|i: int| 0 <= i < 9 implies s2[i] == t2[i] by {
                assert(s2[i] =~= t2[i]);
            }
            assert(s2 =~= t2);
        }
        match self.collide() {
            Ok(()) => {
            },
            Err(e) => {
                return Err(e);
            },
        }
        let next = match self.time.add(&self.discretization.delta_t) {
            Ok(s) => s,
            Err(e) => {
                return Err(e);
            },
        };
        self.time = next;
        Ok(())
    }
}

/// A value equal to a negative fraction is negative, and conversely.
proof fn lemma_sign_transfer(a: Rat, b: Rat)
    requires
        crate::scalar::rat_wf(a),
        crate::scalar::rat_wf(b),
        rat_eq(a, b),
    ensures
        rat_lt(a, rat_int(0)) <==> rat_lt(b, rat_int(0)),
{
    assert((a.n < 0 <==> b.n < 0)) by (nonlinear_arith)
        requires
            a.n * b.d == b.n * a.d,
            a.d > 0,
            b.d > 0,
    {
    }
}

} // verus!
