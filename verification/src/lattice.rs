//! The D2Q9 lattice: direction catalog, populations and macroscopic fields.
//!
//! Nine discrete velocities live on a square grid.  The catalog fixes
//! their order, equilibrium weights, one-hot streaming stencils and the
//! direction-reversal pairing used by bounce-back and the two-relaxation
//! -time operator:
//!
//! | index | weight | velocity  | opposite |
//! |-------|--------|-----------|----------|
//! | 0     | 16/36  | ( 0,  0)  | 0        |
//! | 1     |  4/36  | ( 1,  0)  | 3        |
//! | 2     |  4/36  | ( 0,  1)  | 4        |
//! | 3     |  4/36  | (-1,  0)  | 1        |
//! | 4     |  4/36  | ( 0, -1)  | 2        |
//! | 5     |  1/36  | ( 1,  1)  | 7        |
//! | 6     |  1/36  | (-1,  1)  | 8        |
//! | 7     |  1/36  | (-1, -1)  | 5        |
//! | 8     |  1/36  | ( 1, -1)  | 6        |

use vstd::prelude::*;
use crate::field::Matrix;
use crate::scalar::Error;
use crate::scalar::Rat;
use crate::scalar::Scalar;
use crate::scalar::rat_add;
use crate::scalar::rat_div;
use crate::scalar::rat_eq;
use crate::scalar::rat_int;
use crate::scalar::rat_lt;
use crate::scalar::rat_mul;
use crate::scalar::rat_sub;
use crate::scalar::rat_wf;

verus! {

/// Equilibrium weight of direction `i`.
pub open spec fn spec_weight(i: int) -> Rat {
    if i == 0 {
        Rat { n: 16, d: 36 }
    } else if 1 <= i <= 4 {
        Rat { n: 4, d: 36 }
    } else {
        Rat { n: 1, d: 36 }
    }
}

/// Horizontal component of the discrete velocity of direction `i`.
pub open spec fn spec_cx(i: int) -> int {
    if i == 1 || i == 5 || i == 8 {
        1
    } else if i == 3 || i == 6 || i == 7 {
        -1
    } else {
        0
    }
}

/// Vertical component of the discrete velocity of direction `i`.
pub open spec fn spec_cy(i: int) -> int {
    if i == 2 || i == 5 || i == 6 {
        1
    } else if i == 4 || i == 7 || i == 8 {
        -1
    } else {
        0
    }
}

/// The direction rotated by a half turn: the fixed reversal pairing.
pub open spec fn opposite(i: int) -> int {
    if i == 1 {
        3
    } else if i == 2 {
        4
    } else if i == 3 {
        1
    } else if i == 4 {
        2
    } else if i == 5 {
        7
    } else if i == 6 {
        8
    } else if i == 7 {
        5
    } else if i == 8 {
        6
    } else {
        i
    }
}

/// Reversing a direction twice yields the direction itself, and the
/// reversed velocity is the negated one.
pub proof fn lemma_opposite_involution(i: int)
    requires
        0 <= i < 9,
    ensures
        0 <= opposite(i) < 9,
        opposite(opposite(i)) == i,
        spec_cx(opposite(i)) == -spec_cx(i),
        spec_cy(opposite(i)) == -spec_cy(i),
        spec_weight(opposite(i)) == spec_weight(i),
{
}

/// The reversal pairing, executable.
pub fn opposite_index(i: usize) -> (r: usize)
    requires
        i < 9,
    ensures
        r == opposite(i as int),
{
    if i == 1 {
        3
    } else if i == 2 {
        4
    } else if i == 3 {
        1
    } else if i == 4 {
        2
    } else if i == 5 {
        7
    } else if i == 6 {
        8
    } else if i == 7 {
        5
    } else if i == 8 {
        6
    } else {
        i
    }
}

/// The weight of direction `i`, executable.
pub fn weight_of(i: usize) -> (w: Scalar)
    requires
        i < 9,
    ensures
        rat_eq(w@, spec_weight(i as int)),
        w@.d > 0,
{
    proof {
        vstd::arithmetic::mul::lemma_mul_is_commutative(4, 36);
        vstd::arithmetic::mul::lemma_mul_is_commutative(9, 16);
        vstd::arithmetic::mul::lemma_mul_is_commutative(9, 4);
    }
    if i == 0 {
        Scalar::from_parts(4, 9)
    } else if i <= 4 {
        Scalar::from_parts(1, 9)
    } else {
        Scalar::from_parts(1, 36)
    }
}

/// The horizontal velocity component of direction `i`, executable.
pub fn velocity_x_of(i: usize) -> (c: Scalar)
    requires
        i < 9,
    ensures
        c@ == rat_int(spec_cx(i as int)),
{
    if i == 1 || i == 5 || i == 8 {
        Scalar::from_int(1)
    } else if i == 3 || i == 6 || i == 7 {
        Scalar::from_int(-1)
    } else {
        Scalar::from_int(0)
    }
}

/// The vertical velocity component of direction `i`, executable.
pub fn velocity_y_of(i: usize) -> (c: Scalar)
    requires
        i < 9,
    ensures
        c@ == rat_int(spec_cy(i as int)),
{
    if i == 2 || i == 5 || i == 6 {
        Scalar::from_int(1)
    } else if i == 4 || i == 7 || i == 8 {
        Scalar::from_int(-1)
    } else {
        Scalar::from_int(0)
    }
}

/// A two-component vector of scalars.
#[derive(Clone, Copy)]
pub struct Vector(pub Scalar, pub Scalar);

impl Vector {
    pub fn to_pair(&self) -> (p: (Scalar, Scalar))
        ensures
            p.0 == self.0,
            p.1 == self.1,
    {
        (self.0, self.1)
    }

    /// Componentwise exact sum.
    pub fn add(&self, rhs: &Vector) -> (r: Result<Vector, Error>)
        ensures
            r matches Ok(v) ==> rat_eq(v.0@, rat_add(self.0@, rhs.0@))
                && rat_eq(v.1@, rat_add(self.1@, rhs.1@)),
            r matches Err(e) ==> e == Error::Overflow,
    {
        let x = match self.0.add(&rhs.0) {
            Ok(s) => s,
            Err(e) => {
                return Err(e);
            },
        };
        let y = match self.1.add(&rhs.1) {
            Ok(s) => s,
            Err(e) => {
                return Err(e);
            },
        };
        Ok(Vector(x, y))
    }
}

/// One lattice direction: weight, discrete velocity and the one-hot
/// convolution stencil that streaming would use for it.
pub struct Direction {
    w_scalar: Scalar,
    c_vector: Vector,
    stencil: Matrix,
}

impl Direction {
    /// Ghost weight of the direction.
    pub closed spec fn w(&self) -> Rat {
        self.w_scalar@
    }

    /// Ghost velocity components of the direction.
    pub closed spec fn c(&self) -> (Rat, Rat) {
        (self.c_vector.0@, self.c_vector.1@)
    }

    pub fn weight(&self) -> (w: Scalar)
        ensures
            w@ == self.w(),
    {
        self.w_scalar
    }

    pub fn velocity(&self) -> (c: Vector)
        ensures
            c.0@ == self.c().0,
            c.1@ == self.c().1,
    {
        self.c_vector
    }

    /// Ghost view of the stencil contents.
    pub closed spec fn stencil_view(&self) -> Seq<Rat> {
        self.stencil@
    }

    pub fn stencil(&self) -> (s: &Matrix)
        ensures
            s@ == self.stencil_view(),
    {
        &self.stencil
    }
}

/// The 3 by 3 one-hot stencil of direction `i`: a single one at the
/// offset `(cx, cy)` from the center, row-major with the top row first.
pub open spec fn spec_stencil_cell(i: int, k: int) -> Rat {
    if k == (1 - spec_cy(i)) * 3 + (1 + spec_cx(i)) {
        rat_int(1)
    } else {
        rat_int(0)
    }
}

/// Build the one-hot stencil of direction `i`.
fn make_stencil(i: usize) -> (m: Matrix)
    requires
        i < 9,
    ensures
        m.wid() == 3,
        m.hei() == 3,
        m@.len() == 9,
        forall|k: int| 0 <= k < 9 ==> m@[k] == spec_stencil_cell(i as int, k),
{
    let hot: usize = if i == 0 {
        4
    } else if i == 1 {
        5
    } else if i == 2 {
        1
    } else if i == 3 {
        3
    } else if i == 4 {
        7
    } else if i == 5 {
        2
    } else if i == 6 {
        0
    } else if i == 7 {
        6
    } else {
        8
    };
    proof {
        assert(hot as int == (1 - spec_cy(i as int)) * 3 + (1 + spec_cx(i as int)));
    }
    let mut cells: Vec<Scalar> = Vec::new();
    let mut k: usize = 0;
    while k < 9
        invariant
            k <= 9,
            hot < 9,
            hot as int == (1 - spec_cy(i as int)) * 3 + (1 + spec_cx(i as int)),
            cells@.len() == k,
            forall|j: int| 0 <= j < k ==> (#[trigger] cells@[j])@ == spec_stencil_cell(i as int, j),
        decreases 9 - k,
    {
        if k == hot {
            cells.push(Scalar::one());
        } else {
            cells.push(Scalar::zero());
        }
        k = k + 1;
    }
    match Matrix::new(cells, (3, 3)) {
        Ok(m) => {
            proof {
                assert(forall|j: int| 0 <= j < 9 ==> m@[j] == spec_stencil_cell(i as int, j));
            }
            m
        },
        Err(_) => {
            proof {
                assert(false);
            }
            Matrix::new_filled(Scalar::zero(), (3, 3))
        },
    }
}

/// The grid spacing and time step of a simulation run.
#[derive(Clone, Copy)]
pub struct Discretization {
    pub delta_x: Scalar,
    pub delta_t: Scalar,
}

/// The squared isothermal speed of sound, `delta_x^2 / (3 delta_t^2)`.
pub open spec fn spec_cs2(dx: Rat, dt: Rat) -> Rat {
    rat_div(rat_mul(dx, dx), rat_mul(rat_int(3), rat_mul(dt, dt)))
}

impl Discretization {
    /// Spacing and step are positive lengths of time and space.
    pub open spec fn wf(self) -> bool {
        &&& rat_lt(rat_int(0), self.delta_x@)
        &&& rat_lt(rat_int(0), self.delta_t@)
    }

    /// The square of the isothermal speed of sound.  The speed itself is
    /// irrational for most discretizations; every formula of the solver
    /// uses the square.
    pub fn isothermal_speed_of_sound_squared(&self) -> (r: Result<Scalar, Error>)
        requires
            self.wf(),
        ensures
            r matches Ok(c) ==> rat_eq(c@, spec_cs2(self.delta_x@, self.delta_t@))
                && c@.n > 0,
            r matches Err(e) ==> e == Error::Overflow,
    {
        proof {
            use_type_invariant(self.delta_x);
            use_type_invariant(self.delta_t);
        }
        let num = match self.delta_x.mul(&self.delta_x) {
            Ok(s) => s,
            Err(e) => {
                return Err(e);
            },
        };
        let three = Scalar::from_int(3);
        let dt2 = match self.delta_t.mul(&self.delta_t) {
            Ok(s) => s,
            Err(e) => {
                return Err(e);
            },
        };
        let den = match three.mul(&dt2) {
            Ok(s) => s,
            Err(e) => {
                return Err(e);
            },
        };
        proof {
            use_type_invariant(num);
            use_type_invariant(dt2);
            use_type_invariant(den);
            lemma_pos_times_pos(self.delta_x@, self.delta_x@);
            lemma_pos_times_pos(self.delta_t@, self.delta_t@);
            lemma_pos_times_pos(rat_int(3), rat_mul(self.delta_t@, self.delta_t@));
            crate::scalar::lemma_rat_eq_nonzero(dt2@, rat_mul(self.delta_t@, self.delta_t@));
            crate::scalar::lemma_rewrite_mul(
                den@, three@, dt2@, rat_int(3), rat_mul(self.delta_t@, self.delta_t@));
            crate::scalar::lemma_rat_eq_nonzero(
                den@, rat_mul(rat_int(3), rat_mul(self.delta_t@, self.delta_t@)));
        }
        let r = match num.div(&den) {
            Ok(s) => s,
            Err(e) => {
                return Err(e);
            },
        };
        proof {
            use_type_invariant(r);
            crate::scalar::lemma_rewrite_div(
                r@,
                num@,
                den@,
                rat_mul(self.delta_x@, self.delta_x@),
                rat_mul(rat_int(3), rat_mul(self.delta_t@, self.delta_t@)),
            );
            lemma_pos_div_pos(
                rat_mul(self.delta_x@, self.delta_x@),
                rat_mul(rat_int(3), rat_mul(self.delta_t@, self.delta_t@)),
            );
            crate::scalar::lemma_rat_eq_nonzero(
                r@, spec_cs2(self.delta_x@, self.delta_t@));
        }
        Ok(r)
    }
}

/// Partial sum of the first `i` populations of one cell.
pub open spec fn cell_partial_sum(f: Seq<Rat>, i: int) -> Rat
    decreases i,
{
    if i <= 0 {
        rat_int(0)
    } else {
        rat_add(cell_partial_sum(f, i - 1), f[i - 1])
    }
}

/// Density of one cell: the sum of its nine populations.
pub open spec fn cell_density(f: Seq<Rat>) -> Rat {
    cell_partial_sum(f, 9)
}

/// Partial momentum of the first `i` populations along one axis.
pub open spec fn cell_partial_mom(f: Seq<Rat>, i: int, horizontal: bool) -> Rat
    decreases i,
{
    if i <= 0 {
        rat_int(0)
    } else {
        rat_add(
            cell_partial_mom(f, i - 1, horizontal),
            rat_mul(f[i - 1], rat_int(if horizontal { spec_cx(i - 1) } else { spec_cy(i - 1) })),
        )
    }
}

/// Momentum density of one cell along the horizontal axis.
pub open spec fn cell_momentum_x(f: Seq<Rat>) -> Rat {
    cell_partial_mom(f, 9, true)
}

/// Momentum density of one cell along the vertical axis.
pub open spec fn cell_momentum_y(f: Seq<Rat>) -> Rat {
    cell_partial_mom(f, 9, false)
}

/// Velocity of one cell: momentum density over density.
pub open spec fn cell_velocity_x(f: Seq<Rat>) -> Rat {
    rat_div(cell_momentum_x(f), cell_density(f))
}

pub open spec fn cell_velocity_y(f: Seq<Rat>) -> Rat {
    rat_div(cell_momentum_y(f), cell_density(f))
}

/// Partial cell sums of well-formed populations are well-formed.
pub proof fn lemma_cell_partials_wf(f: Seq<Rat>, i: int, horizontal: bool)
    requires
        forall|j: int| 0 <= j < f.len() ==> rat_wf(#[trigger] f[j]),
        i <= f.len(),
    ensures
        rat_wf(cell_partial_sum(f, i)),
        rat_wf(cell_partial_mom(f, i, horizontal)),
    decreases i,
{
    if i > 0 {
        lemma_cell_partials_wf(f, i - 1, horizontal);
        crate::scalar::lemma_rat_op_wf(cell_partial_sum(f, i - 1), f[i - 1]);
        crate::scalar::lemma_rat_op_wf(
            f[i - 1],
            rat_int(if horizontal { spec_cx(i - 1) } else { spec_cy(i - 1) }),
        );
        crate::scalar::lemma_rat_op_wf(
            cell_partial_mom(f, i - 1, horizontal),
            rat_mul(f[i - 1], rat_int(if horizontal { spec_cx(i - 1) } else { spec_cy(i - 1) })),
        );
    }
}

/// The nine populations of a D2Q9 lattice, index-aligned with the
/// direction catalog.
pub type Population = Matrix;

pub type Populations = Vec<Matrix>;

/// A D2Q9 lattice: the grid shape and one population field per
/// direction.
pub struct D2Q9 {
    size: (usize, usize),
    populations: Vec<Matrix>,
}

impl D2Q9 {
    /// Exactly nine populations, all of the lattice shape.
    #[verifier::type_invariant]
    pub closed spec fn inv(self) -> bool {
        &&& self.populations@.len() == 9
        &&& forall|i: int| 0 <= i < 9 ==> (#[trigger] self.populations@[i]).wid()
            == self.size.0 as nat
        &&& forall|i: int| 0 <= i < 9 ==> (#[trigger] self.populations@[i]).hei()
            == self.size.1 as nat
        &&& forall|i: int| 0 <= i < 9 ==> (#[trigger] self.populations@[i]).shape_inv()
    }

    /// Ghost lattice shape.
    pub closed spec fn spec_size(&self) -> (nat, nat) {
        (self.size.0 as nat, self.size.1 as nat)
    }

    /// Number of grid cells.
    pub open spec fn n_cells(&self) -> nat {
        self.spec_size().0 * self.spec_size().1
    }

    /// Ghost view of the nine population fields.
    pub closed spec fn pops(&self) -> Seq<Seq<Rat>> {
        self.populations@.map_values(|m: Matrix| m@)
    }

    /// The nine populations of the cell at linear index `k`.
    pub open spec fn cell(&self, k: int) -> Seq<Rat> {
        Seq::new(9, |i: int| self.pops()[i][k])
    }

    /// Shape facts that follow from the lattice invariant.
    pub proof fn lemma_wf(&self)
        requires
            self.inv(),
        ensures
            self.pops().len() == 9,
            forall|i: int| 0 <= i < 9 ==> (#[trigger] self.pops()[i]).len() == self.n_cells(),
            forall|i: int, k: int| 0 <= i < 9 && 0 <= k < self.n_cells()
                ==> rat_wf(#[trigger] self.pops()[i][k]),
            forall|k: int, i: int| 0 <= k < self.n_cells() && 0 <= i < 9
                ==> rat_wf(#[trigger] self.cell(k)[i]),
            self.n_cells() <= usize::MAX,
    {
        assert forall|i: int| 0 <= i < 9 implies (#[trigger] self.pops()[i]).len()
            == self.n_cells() by {
            self.populations@[i].lemma_cells_wf();
        }
        assert forall|i: int, k: int| 0 <= i < 9 && 0 <= k < self.n_cells()
            implies rat_wf(#[trigger] self.pops()[i][k]) by {
            self.populations@[i].lemma_cells_wf();
        }
        assert forall|k: int, i: int| 0 <= k < self.n_cells() && 0 <= i < 9
            implies rat_wf(#[trigger] self.cell(k)[i]) by {
            self.populations@[i].lemma_cells_wf();
            assert(self.cell(k)[i] == self.pops()[i][k]);
        }
        self.populations@[0].lemma_cells_wf();
    }

    /// Build a lattice from nine same-shaped population fields.
    pub fn new(populations: Vec<Matrix>) -> (lat: D2Q9)
        requires
            populations@.len() == 9,
            forall|i: int| 0 <= i < 9 ==> (#[trigger] populations@[i]).wid()
                == populations@[0].wid(),
            forall|i: int| 0 <= i < 9 ==> (#[trigger] populations@[i]).hei()
                == populations@[0].hei(),
        ensures
            lat.spec_size() == (populations@[0].wid(), populations@[0].hei()),
            lat.pops() == populations@.map_values(|m: Matrix| m@),
    {
        let mut i: usize = 0;
        while i < populations.len()
            invariant
                populations@.len() == 9,
                i <= 9,
                forall|j: int| 0 <= j < i ==> (#[trigger] populations@[j]).shape_inv(),
            decreases 9 - i,
        {
            let p = &populations[i];
            proof {
                use_type_invariant(p);
            }
            i = i + 1;
        }
        let size = populations[0].get_shape();
        D2Q9 { size, populations }
    }

    /// Replace the populations wholesale; the shape must be preserved.
    pub fn set_populations(&mut self, populations: Vec<Matrix>)
        requires
            populations@.len() == 9,
            forall|i: int| 0 <= i < 9 ==> (#[trigger] populations@[i]).wid()
                == old(self).spec_size().0,
            forall|i: int| 0 <= i < 9 ==> (#[trigger] populations@[i]).hei()
                == old(self).spec_size().1,
        ensures
            final(self).spec_size() == old(self).spec_size(),
            final(self).pops() == populations@.map_values(|m: Matrix| m@),
        no_unwind
    {
        proof {
            use_type_invariant(&*self);
        }
        let mut i: usize = 0;
        while i < populations.len()
            invariant
                populations@.len() == 9,
                i <= 9,
                forall|j: int| 0 <= j < i ==> (#[trigger] populations@[j]).shape_inv(),
            decreases 9 - i,
        {
            let p = &populations[i];
            proof {
                use_type_invariant(p);
            }
            i = i + 1;
        }
        *self = D2Q9 { size: self.size, populations };
    }

    /// The horizontal velocity component of direction `i`, as an
    /// integer offset.
    pub fn velocity_x_offset(i: usize) -> (c: i64)
        requires
            i < 9,
        ensures
            c as int == spec_cx(i as int),
    {
        if i == 1 || i == 5 || i == 8 {
            1
        } else if i == 3 || i == 6 || i == 7 {
            -1
        } else {
            0
        }
    }

    /// The vertical velocity component of direction `i`, as an integer
    /// offset.
    pub fn velocity_y_offset(i: usize) -> (c: i64)
        requires
            i < 9,
        ensures
            c as int == spec_cy(i as int),
    {
        if i == 2 || i == 5 || i == 6 {
            1
        } else if i == 4 || i == 7 || i == 8 {
            -1
        } else {
            0
        }
    }

    /// The lattice shape.
    pub fn size(&self) -> (s: (usize, usize))
        ensures
            s.0 == self.spec_size().0,
            s.1 == self.spec_size().1,
    {
        self.size
    }

    /// The nine population fields.
    pub fn populations(&self) -> (p: &Vec<Matrix>)
        ensures
            p@.map_values(|m: Matrix| m@) == self.pops(),
            p@.len() == 9,
    {
        proof {
            use_type_invariant(self);
        }
        &self.populations
    }

    /// The population field of direction `i`.
    pub fn population(&self, i: usize) -> (p: &Matrix)
        requires
            i < 9,
        ensures
            p@ == self.pops()[i as int],
            p.wid() == self.spec_size().0,
            p.hei() == self.spec_size().1,
    {
        proof {
            use_type_invariant(self);
        }
        &self.populations[i]
    }

    /// The populations with every direction replaced by its reversal:
    /// entry `i` of the result is population `opposite(i)`.
    pub fn swap_populations(&self) -> (r: Vec<Matrix>)
        ensures
            r@.len() == 9,
            forall|i: int| 0 <= i < 9 ==> (#[trigger] r@[i])@ == self.pops()[opposite(i)],
            forall|i: int| 0 <= i < 9 ==> (#[trigger] r@[i]).wid() == self.spec_size().0,
            forall|i: int| 0 <= i < 9 ==> (#[trigger] r@[i]).hei() == self.spec_size().1,
    {
        proof {
            use_type_invariant(self);
        }
        let mut out: Vec<Matrix> = Vec::new();
        let mut i: usize = 0;
        while i < 9
            invariant
                self.inv(),
                i <= 9,
                out@.len() == i,
                forall|j: int| 0 <= j < i ==> (#[trigger] out@[j])@ == self.pops()[opposite(j)],
                forall|j: int| 0 <= j < i ==> (#[trigger] out@[j]).wid() == self.spec_size().0,
                forall|j: int| 0 <= j < i ==> (#[trigger] out@[j]).hei() == self.spec_size().1,
            decreases 9 - i,
        {
            let o = opposite_index(i);
            out.push(self.populations[o].clone());
            i = i + 1;
        }
        out
    }
}

impl D2Q9 {
    /// Density field: the per-cell sum of the nine populations.
    pub fn density(&self) -> (r: Result<Matrix, Error>)
        ensures
            r matches Ok(m) ==> m.wid() == self.spec_size().0 && m.hei() == self.spec_size().1
                && m@.len() == self.n_cells()
                && forall|k: int| 0 <= k < self.n_cells()
                    ==> rat_eq(#[trigger] m@[k], cell_density(self.cell(k))),
            r matches Err(e) ==> e == Error::Overflow,
    {
        proof {
            use_type_invariant(self);
            self.lemma_wf();
        }
        let n: usize = self.populations[0].len();
        proof {
            assert(self.pops()[0] == self.populations@[0]@);
            assert(n == self.n_cells());
        }
        let mut cells: Vec<Scalar> = Vec::new();
        let mut k: usize = 0;
        while k < n
            invariant
                self.inv(),
                k <= n,
                n == self.n_cells(),
                cells@.len() == k,
                forall|j: int| 0 <= j < k
                    ==> rat_eq((#[trigger] cells@[j])@, cell_density(self.cell(j))),
            decreases n - k,
        {
            let acc = match self.cell_sum(k) {
                Ok(s) => s,
                Err(e) => {
                    return Err(e);
                },
            };
            cells.push(acc);
            k = k + 1;
        }
        self.finish_field(cells)
    }

    /// Exact sum of the nine populations of cell `k`.
    pub(crate) fn cell_sum(&self, k: usize) -> (r: Result<Scalar, Error>)
        requires
            k < self.n_cells(),
        ensures
            r matches Ok(s) ==> rat_eq(s@, cell_density(self.cell(k as int))),
            r matches Err(e) ==> e == Error::Overflow,
    {
        proof {
            use_type_invariant(self);
            self.lemma_wf();
        }
        let ghost c = self.cell(k as int);
        let mut acc = Scalar::zero();
        let mut i: usize = 0;
        while i < 9
            invariant
                self.inv(),
                i <= 9,
                k < self.n_cells(),
                c == self.cell(k as int),
                rat_eq(acc@, cell_partial_sum(c, i as int)),
            decreases 9 - i,
        {
            proof {
                self.lemma_wf();
                assert(self.populations@[i as int]@ == self.pops()[i as int]);
            }
            let f = self.populations[i].at(k);
            let next = match acc.add(&f) {
                Ok(s) => s,
                Err(e) => {
                    return Err(e);
                },
            };
            proof {
                use_type_invariant(acc);
                use_type_invariant(f);
                use_type_invariant(next);
                lemma_cell_partials_wf(c, i as int, true);
                assert(f@ == c[i as int]);
                crate::scalar::lemma_rewrite_add(
                    next@, acc@, f@, cell_partial_sum(c, i as int), c[i as int]);
            }
            acc = next;
            i = i + 1;
        }
        Ok(acc)
    }

    /// Exact momentum of the nine populations of cell `k` along one axis.
    pub(crate) fn cell_mom(&self, k: usize, horizontal: bool) -> (r: Result<Scalar, Error>)
        requires
            k < self.n_cells(),
        ensures
            r matches Ok(s) ==> rat_eq(s@, cell_partial_mom(self.cell(k as int), 9, horizontal)),
            r matches Err(e) ==> e == Error::Overflow,
    {
        proof {
            use_type_invariant(self);
            self.lemma_wf();
        }
        let ghost c = self.cell(k as int);
        let mut acc = Scalar::zero();
        let mut i: usize = 0;
        while i < 9
            invariant
                self.inv(),
                i <= 9,
                k < self.n_cells(),
                c == self.cell(k as int),
                rat_eq(acc@, cell_partial_mom(c, i as int, horizontal)),
            decreases 9 - i,
        {
            proof {
                self.lemma_wf();
                assert(self.populations@[i as int]@ == self.pops()[i as int]);
            }
            let f = self.populations[i].at(k);
            let cc = if horizontal {
                velocity_x_of(i)
            } else {
                velocity_y_of(i)
            };
            let fc = match f.mul(&cc) {
                Ok(s) => s,
                Err(e) => {
                    return Err(e);
                },
            };
            let next = match acc.add(&fc) {
                Ok(s) => s,
                Err(e) => {
                    return Err(e);
                },
            };
            proof {
                use_type_invariant(acc);
                use_type_invariant(f);
                use_type_invariant(fc);
                use_type_invariant(next);
                lemma_cell_partials_wf(c, i as int, horizontal);
                assert(f@ == c[i as int]);
                let ghost ci = rat_int(
                    if horizontal { spec_cx(i as int) } else { spec_cy(i as int) });
                assert(cc@ == ci);
                crate::scalar::lemma_rat_op_wf(c[i as int], ci);
                crate::scalar::lemma_rewrite_add(
                    next@, acc@, fc@,
                    cell_partial_mom(c, i as int, horizontal),
                    rat_mul(c[i as int], ci));
            }
            acc = next;
            i = i + 1;
        }
        Ok(acc)
    }

    /// Wrap a vector of per-cell scalars into a field of the lattice shape.
    fn finish_field(&self, cells: Vec<Scalar>) -> (r: Result<Matrix, Error>)
        requires
            cells@.len() == self.n_cells(),
        ensures
            r matches Ok(m) ==> m.wid() == self.spec_size().0 && m.hei() == self.spec_size().1
                && m@ == cells@.map_values(|s: Scalar| s@),
            r is Ok,
    {
        proof {
            use_type_invariant(self);
            self.lemma_wf();
        }
        match Matrix::new(cells, self.size) {
            Ok(m) => Ok(m),
            Err(e) => {
                proof {
                    assert(false);
                }
                Err(e)
            },
        }
    }

    /// Momentum density fields along both axes.
    pub fn momentum_density(&self) -> (r: Result<(Matrix, Matrix), Error>)
        ensures
            r matches Ok((mx, my)) ==> mx.wid() == self.spec_size().0
                && mx.hei() == self.spec_size().1
                && my.wid() == self.spec_size().0 && my.hei() == self.spec_size().1
                && mx@.len() == self.n_cells() && my@.len() == self.n_cells()
                && (forall|k: int| 0 <= k < self.n_cells()
                    ==> rat_eq(#[trigger] mx@[k], cell_momentum_x(self.cell(k))))
                && (forall|k: int| 0 <= k < self.n_cells()
                    ==> rat_eq(#[trigger] my@[k], cell_momentum_y(self.cell(k)))),
            r matches Err(e) ==> e == Error::Overflow,
    {
        proof {
            use_type_invariant(self);
            self.lemma_wf();
        }
        let n: usize = self.populations[0].len();
        proof {
            assert(self.pops()[0] == self.populations@[0]@);
            assert(n == self.n_cells());
        }
        let mut xs: Vec<Scalar> = Vec::new();
        let mut ys: Vec<Scalar> = Vec::new();
        let mut k: usize = 0;
        while k < n
            invariant
                self.inv(),
                k <= n,
                n == self.n_cells(),
                xs@.len() == k,
                ys@.len() == k,
                forall|j: int| 0 <= j < k
                    ==> rat_eq((#[trigger] xs@[j])@, cell_momentum_x(self.cell(j))),
                forall|j: int| 0 <= j < k
                    ==> rat_eq((#[trigger] ys@[j])@, cell_momentum_y(self.cell(j))),
            decreases n - k,
        {
            let mx = match self.cell_mom(k, true) {
                Ok(s) => s,
                Err(e) => {
                    return Err(e);
                },
            };
            let my = match self.cell_mom(k, false) {
                Ok(s) => s,
                Err(e) => {
                    return Err(e);
                },
            };
            xs.push(mx);
            ys.push(my);
            k = k + 1;
        }
        let fx = match self.finish_field(xs) {
            Ok(m) => m,
            Err(e) => {
                return Err(e);
            },
        };
        let fy = match self.finish_field(ys) {
            Ok(m) => m,
            Err(e) => {
                return Err(e);
            },
        };
        Ok((fx, fy))
    }

    /// Velocity fields: per-cell momentum density over density.  A cell
    /// of exactly zero density is reported as `DivisionByZero`.
    pub fn velocity(&self) -> (r: Result<(Matrix, Matrix), Error>)
        ensures
            r matches Ok((vx, vy)) ==> vx.wid() == self.spec_size().0
                && vx.hei() == self.spec_size().1
                && vy.wid() == self.spec_size().0 && vy.hei() == self.spec_size().1
                && vx@.len() == self.n_cells() && vy@.len() == self.n_cells()
                && (forall|k: int| 0 <= k < self.n_cells()
                    ==> rat_eq(#[trigger] vx@[k], cell_velocity_x(self.cell(k))))
                && (forall|k: int| 0 <= k < self.n_cells()
                    ==> rat_eq(#[trigger] vy@[k], cell_velocity_y(self.cell(k)))),
            r is Ok ==> forall|k: int| 0 <= k < self.n_cells()
                ==> cell_density(#[trigger] self.cell(k)).n != 0,
            r == Err::<(Matrix, Matrix), Error>(Error::DivisionByZero)
                ==> exists|k: int| 0 <= k < self.n_cells()
                    && cell_density(#[trigger] self.cell(k)).n == 0,
            r matches Err(e) ==> e == Error::Overflow || e == Error::DivisionByZero,
    {
        proof {
            use_type_invariant(self);
            self.lemma_wf();
        }
        let n: usize = self.populations[0].len();
        proof {
            assert(self.pops()[0] == self.populations@[0]@);
            assert(n == self.n_cells());
        }
        let mut xs: Vec<Scalar> = Vec::new();
        let mut ys: Vec<Scalar> = Vec::new();
        let mut k: usize = 0;
        while k < n
            invariant
                self.inv(),
                k <= n,
                n == self.n_cells(),
                xs@.len() == k,
                ys@.len() == k,
                forall|j: int| 0 <= j < k
                    ==> rat_eq((#[trigger] xs@[j])@, cell_velocity_x(self.cell(j))),
                forall|j: int| 0 <= j < k
                    ==> rat_eq((#[trigger] ys@[j])@, cell_velocity_y(self.cell(j))),
                forall|j: int| 0 <= j < k ==> cell_density(#[trigger] self.cell(j)).n != 0,
            decreases n - k,
        {
            let (ux, uy) = match self.cell_velocity(k) {
                Ok(s) => s,
                Err(e) => {
                    return Err(e);
                },
            };
            xs.push(ux);
            ys.push(uy);
            k = k + 1;
        }
        let fx = match self.finish_field(xs) {
            Ok(m) => m,
            Err(e) => {
                return Err(e);
            },
        };
        let fy = match self.finish_field(ys) {
            Ok(m) => m,
            Err(e) => {
                return Err(e);
            },
        };
        Ok((fx, fy))
    }

    /// Exact velocity of cell `k`.
    pub(crate) fn cell_velocity(&self, k: usize) -> (r: Result<(Scalar, Scalar), Error>)
        requires
            k < self.n_cells(),
        ensures
            r matches Ok(s) ==> rat_eq(s.0@, cell_velocity_x(self.cell(k as int)))
                && rat_eq(s.1@, cell_velocity_y(self.cell(k as int)))
                && cell_density(self.cell(k as int)).n != 0,
            r == Err::<(Scalar, Scalar), Error>(Error::DivisionByZero)
                ==> cell_density(self.cell(k as int)).n == 0,
            r matches Err(e) ==> e == Error::Overflow || e == Error::DivisionByZero,
    {
        proof {
            use_type_invariant(self);
            self.lemma_wf();
        }
        let ghost c = self.cell(k as int);
        let rho = match self.cell_sum(k) {
            Ok(s) => s,
            Err(e) => {
                return Err(e);
            },
        };
        let mx = match self.cell_mom(k, true) {
            Ok(s) => s,
            Err(e) => {
                return Err(e);
            },
        };
        let my = match self.cell_mom(k, false) {
            Ok(s) => s,
            Err(e) => {
                return Err(e);
            },
        };
        proof {
            use_type_invariant(rho);
            lemma_cell_partials_wf(c, 9, true);
            crate::scalar::lemma_rat_eq_nonzero(rho@, cell_density(c));
        }
        let ux = match mx.div(&rho) {
            Ok(s) => s,
            Err(e) => {
                return Err(e);
            },
        };
        let uy = match my.div(&rho) {
            Ok(s) => s,
            Err(e) => {
                return Err(e);
            },
        };
        proof {
            use_type_invariant(rho);
            use_type_invariant(mx);
            use_type_invariant(my);
            use_type_invariant(ux);
            use_type_invariant(uy);
            lemma_cell_partials_wf(c, 9, true);
            lemma_cell_partials_wf(c, 9, false);
            crate::scalar::lemma_rat_eq_nonzero(rho@, cell_density(c));
            crate::scalar::lemma_rewrite_div(
                ux@, mx@, rho@, cell_momentum_x(c), cell_density(c));
            crate::scalar::lemma_rewrite_div(
                uy@, my@, rho@, cell_momentum_y(c), cell_density(c));
        }
        Ok((ux, uy))
    }
}

/// Maxwell-Boltzmann equilibrium of one direction at one cell, stated
/// over the direction's weight `w` and velocity `(cx, cy)`:
/// `w rho (1 + (c.u)/cs2 + (c.u)^2/(2 cs2^2) - |u|^2/(2 cs2))`.
pub open spec fn eq_formula_g(w: Rat, cx: Rat, cy: Rat, rho: Rat, ux: Rat, uy: Rat, cs2: Rat)
    -> Rat {
    let cu = rat_add(rat_mul(cx, ux), rat_mul(cy, uy));
    let u2 = rat_add(rat_mul(ux, ux), rat_mul(uy, uy));
    rat_mul(
        rat_mul(w, rho),
        rat_sub(
            rat_add(
                rat_add(rat_int(1), rat_div(cu, cs2)),
                rat_div(rat_mul(cu, cu), rat_mul(rat_int(2), rat_mul(cs2, cs2))),
            ),
            rat_div(u2, rat_mul(rat_int(2), cs2)),
        ),
    )
}

/// Equilibrium of catalog direction `i` at one cell.
pub open spec fn eq_formula(i: int, rho: Rat, ux: Rat, uy: Rat, cs2: Rat) -> Rat {
    eq_formula_g(spec_weight(i), rat_int(spec_cx(i)), rat_int(spec_cy(i)), rho, ux, uy, cs2)
}

/// The equilibrium of one direction is a well-formed fraction.
pub proof fn lemma_eq_formula_g_wf(w: Rat, cx: Rat, cy: Rat, rho: Rat, ux: Rat, uy: Rat,
    cs2: Rat)
    requires
        rat_wf(w),
        rat_wf(cx),
        rat_wf(cy),
        rat_wf(rho),
        rat_wf(ux),
        rat_wf(uy),
        rat_wf(cs2),
        cs2.n != 0,
    ensures
        rat_wf(eq_formula_g(w, cx, cy, rho, ux, uy, cs2)),
{
    let cu = rat_add(rat_mul(cx, ux), rat_mul(cy, uy));
    let u2 = rat_add(rat_mul(ux, ux), rat_mul(uy, uy));
    let den2 = rat_mul(rat_int(2), rat_mul(cs2, cs2));
    let den3 = rat_mul(rat_int(2), cs2);
    crate::scalar::lemma_rat_op_wf(cx, ux);
    crate::scalar::lemma_rat_op_wf(cy, uy);
    crate::scalar::lemma_rat_op_wf(rat_mul(cx, ux), rat_mul(cy, uy));
    crate::scalar::lemma_rat_op_wf(ux, ux);
    crate::scalar::lemma_rat_op_wf(uy, uy);
    crate::scalar::lemma_rat_op_wf(rat_mul(ux, ux), rat_mul(uy, uy));
    crate::scalar::lemma_rat_op_wf(cs2, cs2);
    crate::scalar::lemma_rat_op_wf(rat_int(2), rat_mul(cs2, cs2));
    crate::scalar::lemma_rat_op_wf(rat_int(2), cs2);
    assert(den2.n != 0 && den3.n != 0) by (nonlinear_arith)
        requires
            den2.n == 2 * (cs2.n * cs2.n),
            den3.n == 2 * cs2.n,
            cs2.n != 0,
    {
    }
    crate::scalar::lemma_rat_op_wf(cu, cs2);
    crate::scalar::lemma_rat_op_wf(cu, cu);
    crate::scalar::lemma_rat_op_wf(rat_mul(cu, cu), den2);
    crate::scalar::lemma_rat_op_wf(u2, den3);
    crate::scalar::lemma_rat_op_wf(rat_int(1), rat_div(cu, cs2));
    crate::scalar::lemma_rat_op_wf(
        rat_add(rat_int(1), rat_div(cu, cs2)), rat_div(rat_mul(cu, cu), den2));
    crate::scalar::lemma_rat_op_wf(
        rat_add(rat_add(rat_int(1), rat_div(cu, cs2)), rat_div(rat_mul(cu, cu), den2)),
        rat_div(u2, den3));
    crate::scalar::lemma_rat_op_wf(w, rho);
    crate::scalar::lemma_rat_op_wf(
        rat_mul(w, rho),
        rat_sub(
            rat_add(rat_add(rat_int(1), rat_div(cu, cs2)), rat_div(rat_mul(cu, cu), den2)),
            rat_div(u2, den3)));
}

/// The equilibrium formula respects value equality of its inputs.
pub proof fn lemma_eq_formula_g_cong(cx: Rat, cy: Rat, wa: Rat, rhoa: Rat, uxa: Rat, uya: Rat,
    cs2a: Rat, wb: Rat, rhob: Rat, uxb: Rat, uyb: Rat, cs2b: Rat)
    requires
        rat_wf(cx),
        rat_wf(cy),
        rat_wf(wa),
        rat_wf(rhoa),
        rat_wf(uxa),
        rat_wf(uya),
        rat_wf(cs2a),
        rat_wf(wb),
        rat_wf(rhob),
        rat_wf(uxb),
        rat_wf(uyb),
        rat_wf(cs2b),
        cs2a.n != 0,
        cs2b.n != 0,
        rat_eq(wa, wb),
        rat_eq(rhoa, rhob),
        rat_eq(uxa, uxb),
        rat_eq(uya, uyb),
        rat_eq(cs2a, cs2b),
    ensures
        rat_eq(
            eq_formula_g(wa, cx, cy, rhoa, uxa, uya, cs2a),
            eq_formula_g(wb, cx, cy, rhob, uxb, uyb, cs2b),
        ),
{
    let cua = rat_add(rat_mul(cx, uxa), rat_mul(cy, uya));
    let cub = rat_add(rat_mul(cx, uxb), rat_mul(cy, uyb));
    let u2a = rat_add(rat_mul(uxa, uxa), rat_mul(uya, uya));
    let u2b = rat_add(rat_mul(uxb, uxb), rat_mul(uyb, uyb));
    let den2a = rat_mul(rat_int(2), rat_mul(cs2a, cs2a));
    let den2b = rat_mul(rat_int(2), rat_mul(cs2b, cs2b));
    let den3a = rat_mul(rat_int(2), cs2a);
    let den3b = rat_mul(rat_int(2), cs2b);
    crate::scalar::lemma_rat_op_wf(cx, uxa);
    crate::scalar::lemma_rat_op_wf(cy, uya);
    crate::scalar::lemma_rat_op_wf(cx, uxb);
    crate::scalar::lemma_rat_op_wf(cy, uyb);
    crate::scalar::lemma_rat_op_wf(rat_mul(cx, uxa), rat_mul(cy, uya));
    crate::scalar::lemma_rat_op_wf(rat_mul(cx, uxb), rat_mul(cy, uyb));
    crate::scalar::lemma_rat_op_wf(uxa, uxa);
    crate::scalar::lemma_rat_op_wf(uya, uya);
    crate::scalar::lemma_rat_op_wf(uxb, uxb);
    crate::scalar::lemma_rat_op_wf(uyb, uyb);
    crate::scalar::lemma_rat_op_wf(rat_mul(uxa, uxa), rat_mul(uya, uya));
    crate::scalar::lemma_rat_op_wf(rat_mul(uxb, uxb), rat_mul(uyb, uyb));
    crate::scalar::lemma_rat_op_wf(cs2a, cs2a);
    crate::scalar::lemma_rat_op_wf(cs2b, cs2b);
    crate::scalar::lemma_rat_op_wf(rat_int(2), rat_mul(cs2a, cs2a));
    crate::scalar::lemma_rat_op_wf(rat_int(2), rat_mul(cs2b, cs2b));
    crate::scalar::lemma_rat_op_wf(rat_int(2), cs2a);
    crate::scalar::lemma_rat_op_wf(rat_int(2), cs2b);
    assert(den2a.n != 0 && den3a.n != 0) by (nonlinear_arith)
        requires
            den2a.n == 2 * (cs2a.n * cs2a.n),
            den3a.n == 2 * cs2a.n,
            cs2a.n != 0,
    {
    }
    assert(den2b.n != 0 && den3b.n != 0) by (nonlinear_arith)
        requires
            den2b.n == 2 * (cs2b.n * cs2b.n),
            den3b.n == 2 * cs2b.n,
            cs2b.n != 0,
    {
    }
    crate::scalar::lemma_rat_mul_cong(cx, uxa, cx, uxb);
    crate::scalar::lemma_rat_mul_cong(cy, uya, cy, uyb);
    crate::scalar::lemma_rat_add_cong(
        rat_mul(cx, uxa), rat_mul(cy, uya), rat_mul(cx, uxb), rat_mul(cy, uyb));
    crate::scalar::lemma_rat_mul_cong(uxa, uxa, uxb, uxb);
    crate::scalar::lemma_rat_mul_cong(uya, uya, uyb, uyb);
    crate::scalar::lemma_rat_add_cong(
        rat_mul(uxa, uxa), rat_mul(uya, uya), rat_mul(uxb, uxb), rat_mul(uyb, uyb));
    crate::scalar::lemma_rat_div_cong(cua, cs2a, cub, cs2b);
    crate::scalar::lemma_rat_op_wf(cua, cs2a);
    crate::scalar::lemma_rat_op_wf(cub, cs2b);
    crate::scalar::lemma_rat_add_cong(
        rat_int(1), rat_div(cua, cs2a), rat_int(1), rat_div(cub, cs2b));
    crate::scalar::lemma_rat_mul_cong(cua, cua, cub, cub);
    crate::scalar::lemma_rat_mul_cong(cs2a, cs2a, cs2b, cs2b);
    crate::scalar::lemma_rat_mul_cong(
        rat_int(2), rat_mul(cs2a, cs2a), rat_int(2), rat_mul(cs2b, cs2b));
    crate::scalar::lemma_rat_op_wf(cua, cua);
    crate::scalar::lemma_rat_op_wf(cub, cub);
    crate::scalar::lemma_rat_div_cong(rat_mul(cua, cua), den2a, rat_mul(cub, cub), den2b);
    crate::scalar::lemma_rat_op_wf(rat_mul(cua, cua), den2a);
    crate::scalar::lemma_rat_op_wf(rat_mul(cub, cub), den2b);
    crate::scalar::lemma_rat_op_wf(rat_int(1), rat_div(cua, cs2a));
    crate::scalar::lemma_rat_op_wf(rat_int(1), rat_div(cub, cs2b));
    crate::scalar::lemma_rat_add_cong(
        rat_add(rat_int(1), rat_div(cua, cs2a)),
        rat_div(rat_mul(cua, cua), den2a),
        rat_add(rat_int(1), rat_div(cub, cs2b)),
        rat_div(rat_mul(cub, cub), den2b));
    crate::scalar::lemma_rat_mul_cong(rat_int(2), cs2a, rat_int(2), cs2b);
    crate::scalar::lemma_rat_div_cong(u2a, den3a, u2b, den3b);
    crate::scalar::lemma_rat_op_wf(
        rat_add(rat_int(1), rat_div(cua, cs2a)), rat_div(rat_mul(cua, cua), den2a));
    crate::scalar::lemma_rat_op_wf(
        rat_add(rat_int(1), rat_div(cub, cs2b)), rat_div(rat_mul(cub, cub), den2b));
    crate::scalar::lemma_rat_op_wf(u2a, den3a);
    crate::scalar::lemma_rat_op_wf(u2b, den3b);
    crate::scalar::lemma_rat_sub_cong(
        rat_add(rat_add(rat_int(1), rat_div(cua, cs2a)), rat_div(rat_mul(cua, cua), den2a)),
        rat_div(u2a, den3a),
        rat_add(rat_add(rat_int(1), rat_div(cub, cs2b)), rat_div(rat_mul(cub, cub), den2b)),
        rat_div(u2b, den3b));
    crate::scalar::lemma_rat_mul_cong(wa, rhoa, wb, rhob);
    crate::scalar::lemma_rat_op_wf(wa, rhoa);
    crate::scalar::lemma_rat_op_wf(wb, rhob);
    crate::scalar::lemma_rat_op_wf(
        rat_add(rat_add(rat_int(1), rat_div(cua, cs2a)), rat_div(rat_mul(cua, cua), den2a)),
        rat_div(u2a, den3a));
    crate::scalar::lemma_rat_op_wf(
        rat_add(rat_add(rat_int(1), rat_div(cub, cs2b)), rat_div(rat_mul(cub, cub), den2b)),
        rat_div(u2b, den3b));
    crate::scalar::lemma_rat_mul_cong(
        rat_mul(wa, rhoa),
        rat_sub(
            rat_add(rat_add(rat_int(1), rat_div(cua, cs2a)), rat_div(rat_mul(cua, cua), den2a)),
            rat_div(u2a, den3a)),
        rat_mul(wb, rhob),
        rat_sub(
            rat_add(rat_add(rat_int(1), rat_div(cub, cs2b)), rat_div(rat_mul(cub, cub), den2b)),
            rat_div(u2b, den3b)));
}

/// Exact equilibrium of one direction at one cell.
pub fn eq_cell(w: &Scalar, cx: &Scalar, cy: &Scalar, rho: &Scalar, ux: &Scalar, uy: &Scalar,
    cs2: &Scalar) -> (r: Result<Scalar, Error>)
    requires
        cs2@.n > 0,
    ensures
        r matches Ok(s) ==> rat_eq(s@, eq_formula_g(w@, cx@, cy@, rho@, ux@, uy@, cs2@)),
        r matches Err(e) ==> e == Error::Overflow,
{
    proof {
        use_type_invariant(*w);
        use_type_invariant(*cx);
        use_type_invariant(*cy);
        use_type_invariant(*rho);
        use_type_invariant(*ux);
        use_type_invariant(*uy);
        use_type_invariant(*cs2);
    }
    let ghost gcu = rat_add(rat_mul(cx@, ux@), rat_mul(cy@, uy@));
    let ghost gu2 = rat_add(rat_mul(ux@, ux@), rat_mul(uy@, uy@));
    let ghost gden2 = rat_mul(rat_int(2), rat_mul(cs2@, cs2@));
    let ghost gden3 = rat_mul(rat_int(2), cs2@);
    proof {
        crate::scalar::lemma_rat_op_wf(cx@, ux@);
        crate::scalar::lemma_rat_op_wf(cy@, uy@);
        crate::scalar::lemma_rat_op_wf(rat_mul(cx@, ux@), rat_mul(cy@, uy@));
        crate::scalar::lemma_rat_op_wf(ux@, ux@);
        crate::scalar::lemma_rat_op_wf(uy@, uy@);
        crate::scalar::lemma_rat_op_wf(rat_mul(ux@, ux@), rat_mul(uy@, uy@));
        crate::scalar::lemma_rat_op_wf(cs2@, cs2@);
        crate::scalar::lemma_rat_op_wf(rat_int(2), rat_mul(cs2@, cs2@));
        crate::scalar::lemma_rat_op_wf(rat_int(2), cs2@);
        assert(gden2.n > 0 && gden3.n > 0) by (nonlinear_arith)
            requires
                gden2.n == 2 * (cs2@.n * cs2@.n),
                gden3.n == 2 * cs2@.n,
                cs2@.n > 0,
        {
        }
    }
    let ucx = match cx.mul(ux) {
        Ok(s) => s,
        Err(e) => {
            return Err(e);
        },
    };
    let ucy = match cy.mul(uy) {
        Ok(s) => s,
        Err(e) => {
            return Err(e);
        },
    };
    let cu = match ucx.add(&ucy) {
        Ok(s) => s,
        Err(e) => {
            return Err(e);
        },
    };
    proof {
        use_type_invariant(ucx);
        use_type_invariant(ucy);
        use_type_invariant(cu);
        crate::scalar::lemma_rewrite_add(
            cu@, ucx@, ucy@, rat_mul(cx@, ux@), rat_mul(cy@, uy@));
    }
    let ux2 = match ux.mul(ux) {
        Ok(s) => s,
        Err(e) => {
            return Err(e);
        },
    };
    let uy2 = match uy.mul(uy) {
        Ok(s) => s,
        Err(e) => {
            return Err(e);
        },
    };
    let u2 = match ux2.add(&uy2) {
        Ok(s) => s,
        Err(e) => {
            return Err(e);
        },
    };
    proof {
        use_type_invariant(ux2);
        use_type_invariant(uy2);
        use_type_invariant(u2);
        crate::scalar::lemma_rewrite_add(
            u2@, ux2@, uy2@, rat_mul(ux@, ux@), rat_mul(uy@, uy@));
    }
    let d1 = match cu.div(cs2) {
        Ok(s) => s,
        Err(e) => {
            return Err(e);
        },
    };
    let one = Scalar::one();
    let t1 = match one.add(&d1) {
        Ok(s) => s,
        Err(e) => {
            return Err(e);
        },
    };
    proof {
        use_type_invariant(d1);
        use_type_invariant(t1);
        crate::scalar::lemma_rewrite_div(d1@, cu@, cs2@, gcu, cs2@);
        crate::scalar::lemma_rat_op_wf(gcu, cs2@);
        crate::scalar::lemma_rewrite_add(t1@, one@, d1@, rat_int(1), rat_div(gcu, cs2@));
    }
    let cu2 = match cu.mul(&cu) {
        Ok(s) => s,
        Err(e) => {
            return Err(e);
        },
    };
    let csq = match cs2.mul(cs2) {
        Ok(s) => s,
        Err(e) => {
            return Err(e);
        },
    };
    let two = Scalar::from_int(2);
    let den2 = match two.mul(&csq) {
        Ok(s) => s,
        Err(e) => {
            return Err(e);
        },
    };
    proof {
        use_type_invariant(csq);
        use_type_invariant(den2);
        crate::scalar::lemma_rewrite_mul(
            den2@, two@, csq@, rat_int(2), rat_mul(cs2@, cs2@));
        crate::scalar::lemma_rat_eq_nonzero(den2@, gden2);
    }
    let d2 = match cu2.div(&den2) {
        Ok(s) => s,
        Err(e) => {
            return Err(e);
        },
    };
    let t2 = match t1.add(&d2) {
        Ok(s) => s,
        Err(e) => {
            return Err(e);
        },
    };
    proof {
        use_type_invariant(cu2);
        use_type_invariant(d2);
        use_type_invariant(t2);
        crate::scalar::lemma_rewrite_mul(cu2@, cu@, cu@, gcu, gcu);
        crate::scalar::lemma_rat_op_wf(gcu, gcu);
        crate::scalar::lemma_rewrite_div(d2@, cu2@, den2@, rat_mul(gcu, gcu), gden2);
        crate::scalar::lemma_rat_op_wf(rat_mul(gcu, gcu), gden2);
        crate::scalar::lemma_rat_op_wf(rat_int(1), rat_div(gcu, cs2@));
        crate::scalar::lemma_rewrite_add(
            t2@, t1@, d2@,
            rat_add(rat_int(1), rat_div(gcu, cs2@)),
            rat_div(rat_mul(gcu, gcu), gden2));
    }
    let den3 = match two.mul(cs2) {
        Ok(s) => s,
        Err(e) => {
            return Err(e);
        },
    };
    proof {
        use_type_invariant(den3);
        assert(rat_eq(den3@, gden3));
        crate::scalar::lemma_rat_eq_nonzero(den3@, gden3);
    }
    let d3 = match u2.div(&den3) {
        Ok(s) => s,
        Err(e) => {
            return Err(e);
        },
    };
    let t3 = match t2.sub(&d3) {
        Ok(s) => s,
        Err(e) => {
            return Err(e);
        },
    };
    proof {
        use_type_invariant(d3);
        use_type_invariant(t3);
        crate::scalar::lemma_rewrite_div(d3@, u2@, den3@, gu2, gden3);
        crate::scalar::lemma_rat_op_wf(
            rat_add(rat_int(1), rat_div(gcu, cs2@)),
            rat_div(rat_mul(gcu, gcu), gden2));
        crate::scalar::lemma_rat_op_wf(gu2, gden3);
        crate::scalar::lemma_rewrite_sub(
            t3@, t2@, d3@,
            rat_add(
                rat_add(rat_int(1), rat_div(gcu, cs2@)),
                rat_div(rat_mul(gcu, gcu), gden2)),
            rat_div(gu2, gden3));
    }
    let wr = match w.mul(rho) {
        Ok(s) => s,
        Err(e) => {
            return Err(e);
        },
    };
    let res = match wr.mul(&t3) {
        Ok(s) => s,
        Err(e) => {
            return Err(e);
        },
    };
    proof {
        use_type_invariant(wr);
        use_type_invariant(res);
        crate::scalar::lemma_rewrite_mul(wr@, w@, rho@, w@, rho@);
        crate::scalar::lemma_rat_op_wf(w@, rho@);
        crate::scalar::lemma_rat_op_wf(
            rat_add(
                rat_add(rat_int(1), rat_div(gcu, cs2@)),
                rat_div(rat_mul(gcu, gcu), gden2)),
            rat_div(gu2, gden3));
        crate::scalar::lemma_rewrite_mul(
            res@, wr@, t3@,
            rat_mul(w@, rho@),
            rat_sub(
                rat_add(
                    rat_add(rat_int(1), rat_div(gcu, cs2@)),
                    rat_div(rat_mul(gcu, gcu), gden2)),
                rat_div(gu2, gden3)));
    }
    Ok(res)
}

/// Compute the nine Maxwell-Boltzmann equilibrium populations from a
/// density field and a velocity field.
pub fn compute_equilibrium(density: &Matrix, velocity: (&Matrix, &Matrix),
    discretization: &Discretization) -> (r: Result<Vec<Matrix>, Error>)
    requires
        discretization.wf(),
        velocity.0.wid() == density.wid(),
        velocity.0.hei() == density.hei(),
        velocity.1.wid() == density.wid(),
        velocity.1.hei() == density.hei(),
    ensures
        r matches Ok(v) ==> v@.len() == 9
            && (forall|i: int| 0 <= i < 9 ==> (#[trigger] v@[i]).wid() == density.wid()
                && v@[i].hei() == density.hei() && v@[i]@.len() == density@.len())
            && (forall|i: int, k: int| 0 <= i < 9 && 0 <= k < density@.len()
                ==> rat_wf(#[trigger] v@[i]@[k]))
            && (forall|i: int, k: int| 0 <= i < 9 && 0 <= k < density@.len()
                ==> rat_eq(
                    #[trigger] v@[i]@[k],
                    eq_formula(
                        i,
                        density@[k],
                        velocity.0@[k],
                        velocity.1@[k],
                        spec_cs2(discretization.delta_x@, discretization.delta_t@),
                    ),
                )),
        r matches Err(e) ==> e == Error::Overflow,
{
    let ghost gcs2 = spec_cs2(discretization.delta_x@, discretization.delta_t@);
    let cs2 = match discretization.isothermal_speed_of_sound_squared() {
        Ok(s) => s,
        Err(e) => {
            return Err(e);
        },
    };
    proof {
        use_type_invariant(density);
        density.lemma_cells_wf();
        use_type_invariant(velocity.0);
        velocity.0.lemma_cells_wf();
        use_type_invariant(velocity.1);
        velocity.1.lemma_cells_wf();
        use_type_invariant(cs2);
        use_type_invariant(discretization.delta_x);
        use_type_invariant(discretization.delta_t);
        crate::scalar::lemma_rat_op_wf(discretization.delta_x@, discretization.delta_x@);
        crate::scalar::lemma_rat_op_wf(discretization.delta_t@, discretization.delta_t@);
        crate::scalar::lemma_rat_op_wf(
            rat_int(3), rat_mul(discretization.delta_t@, discretization.delta_t@));
        lemma_pos_times_pos(discretization.delta_x@, discretization.delta_x@);
        lemma_pos_times_pos(discretization.delta_t@, discretization.delta_t@);
        lemma_pos_times_pos(
            rat_int(3), rat_mul(discretization.delta_t@, discretization.delta_t@));
        lemma_pos_div_pos(
            rat_mul(discretization.delta_x@, discretization.delta_x@),
            rat_mul(rat_int(3), rat_mul(discretization.delta_t@, discretization.delta_t@)));
        crate::scalar::lemma_rat_eq_nonzero(cs2@, gcs2);
    }
    let n: usize = density.len();
    let mut out: Vec<Matrix> = Vec::new();
    let mut i: usize = 0;
    while i < 9
        invariant
            discretization.wf(),
            velocity.0.wid() == density.wid(),
            velocity.0.hei() == density.hei(),
            velocity.1.wid() == density.wid(),
            velocity.1.hei() == density.hei(),
            velocity.0@.len() == n,
            velocity.1@.len() == n,
            n == density@.len(),
            gcs2 == spec_cs2(discretization.delta_x@, discretization.delta_t@),
            rat_eq(cs2@, gcs2),
            cs2@.n > 0,
            rat_wf(gcs2),
            gcs2.n > 0,
            forall|k: int| 0 <= k < n ==> rat_wf(#[trigger] density@[k]),
            forall|k: int| 0 <= k < n ==> rat_wf(#[trigger] velocity.0@[k]),
            forall|k: int| 0 <= k < n ==> rat_wf(#[trigger] velocity.1@[k]),
            i <= 9,
            out@.len() == i,
            forall|ii: int| 0 <= ii < i ==> (#[trigger] out@[ii]).wid() == density.wid()
                && out@[ii].hei() == density.hei() && out@[ii]@.len() == n,
            forall|ii: int, k: int| 0 <= ii < i && 0 <= k < n
                ==> rat_wf(#[trigger] out@[ii]@[k]),
            forall|ii: int, k: int| 0 <= ii < i && 0 <= k < n
                ==> rat_eq(
                    #[trigger] out@[ii]@[k],
                    eq_formula(ii, density@[k], velocity.0@[k], velocity.1@[k], gcs2)),
        decreases 9 - i,
    {
        let w = weight_of(i);
        let cxs = velocity_x_of(i);
        let cys = velocity_y_of(i);
        let mut cells: Vec<Scalar> = Vec::new();
        let mut k: usize = 0;
        while k < n
            invariant
                velocity.0@.len() == n,
                velocity.1@.len() == n,
                n == density@.len(),
                i < 9,
                rat_eq(cs2@, gcs2),
                cs2@.n > 0,
                rat_wf(gcs2),
                gcs2.n > 0,
                rat_eq(w@, spec_weight(i as int)),
                w@.d > 0,
                cxs@ == rat_int(spec_cx(i as int)),
                cys@ == rat_int(spec_cy(i as int)),
                forall|j: int| 0 <= j < n ==> rat_wf(#[trigger] density@[j]),
                forall|j: int| 0 <= j < n ==> rat_wf(#[trigger] velocity.0@[j]),
                forall|j: int| 0 <= j < n ==> rat_wf(#[trigger] velocity.1@[j]),
                k <= n,
                cells@.len() == k,
                forall|j: int| 0 <= j < k
                    ==> rat_eq(
                        (#[trigger] cells@[j])@,
                        eq_formula(i as int, density@[j], velocity.0@[j], velocity.1@[j], gcs2)),
            decreases n - k,
        {
            let rho = density.at(k);
            let ux = velocity.0.at(k);
            let uy = velocity.1.at(k);
            let s = match eq_cell(&w, &cxs, &cys, &rho, &ux, &uy, &cs2) {
                Ok(s) => s,
                Err(e) => {
                    return Err(e);
                },
            };
            proof {
                use_type_invariant(s);
                use_type_invariant(w);
                use_type_invariant(rho);
                use_type_invariant(ux);
                use_type_invariant(uy);
                use_type_invariant(cs2);
                lemma_eq_formula_g_cong(
                    cxs@, cys@,
                    w@, rho@, ux@, uy@, cs2@,
                    spec_weight(i as int), density@[k as int], velocity.0@[k as int],
                    velocity.1@[k as int], gcs2);
                lemma_eq_formula_g_wf(w@, cxs@, cys@, rho@, ux@, uy@, cs2@);
                lemma_eq_formula_g_wf(
                    spec_weight(i as int), cxs@, cys@, density@[k as int],
                    velocity.0@[k as int], velocity.1@[k as int], gcs2);
                crate::scalar::lemma_rat_eq_trans(
                    s@,
                    eq_formula_g(w@, cxs@, cys@, rho@, ux@, uy@, cs2@),
                    eq_formula_g(
                        spec_weight(i as int), cxs@, cys@, density@[k as int],
                        velocity.0@[k as int], velocity.1@[k as int], gcs2));
            }
            cells.push(s);
            k = k + 1;
        }
        proof {
            use_type_invariant(density);
            density.lemma_cells_wf();
        }
        let m = match Matrix::new(cells, density.get_shape()) {
            Ok(m) => m,
            Err(e) => {
                proof {
                    assert(false);
                }
                return Err(e);
            },
        };
        out.push(m);
        i = i + 1;
    }
    Ok(out)
}

/// Equilibrium of direction `i` at cell `k` of a lattice, derived from
/// the lattice's own density and velocity.
pub open spec fn lattice_eq(l: D2Q9, i: int, k: int, cs2: Rat) -> Rat {
    eq_formula(i, cell_density(l.cell(k)), cell_velocity_x(l.cell(k)),
        cell_velocity_y(l.cell(k)), cs2)
}

impl D2Q9 {
    /// The catalog of nine directions, index-aligned with the fixed
    /// tables.
    pub fn directions() -> (ds: Vec<Direction>)
        ensures
            ds@.len() == 9,
            forall|i: int| 0 <= i < 9 ==> rat_eq((#[trigger] ds@[i]).w(), spec_weight(i)),
            forall|i: int| 0 <= i < 9 ==> (#[trigger] ds@[i]).c().0 == rat_int(spec_cx(i)),
            forall|i: int| 0 <= i < 9 ==> (#[trigger] ds@[i]).c().1 == rat_int(spec_cy(i)),
            forall|i: int| 0 <= i < 9 ==> (#[trigger] ds@[i]).stencil_view().len() == 9,
            forall|i: int, k: int| 0 <= i < 9 && 0 <= k < 9
                ==> (#[trigger] ds@[i].stencil_view()[k]) == spec_stencil_cell(i, k),
    {
        let mut ds: Vec<Direction> = Vec::new();
        let mut i: usize = 0;
        while i < 9
            invariant
                i <= 9,
                ds@.len() == i,
                forall|j: int| 0 <= j < i ==> rat_eq((#[trigger] ds@[j]).w(), spec_weight(j)),
                forall|j: int| 0 <= j < i ==> (#[trigger] ds@[j]).c().0 == rat_int(spec_cx(j)),
                forall|j: int| 0 <= j < i ==> (#[trigger] ds@[j]).c().1 == rat_int(spec_cy(j)),
                forall|j: int| 0 <= j < i ==> (#[trigger] ds@[j]).stencil_view().len() == 9,
                forall|j: int, k: int| 0 <= j < i && 0 <= k < 9
                    ==> (#[trigger] ds@[j].stencil_view()[k]) == spec_stencil_cell(j, k),
            decreases 9 - i,
        {
            let d = Direction {
                w_scalar: weight_of(i),
                c_vector: Vector(velocity_x_of(i), velocity_y_of(i)),
                stencil: make_stencil(i),
            };
            ds.push(d);
            i = i + 1;
        }
        ds
    }

    /// The nine equilibrium populations derived from this lattice's own
    /// density and velocity.
    pub fn equilibrium(&self, disc: &Discretization) -> (r: Result<Vec<Matrix>, Error>)
        requires
            disc.wf(),
        ensures
            r matches Ok(v) ==> v@.len() == 9
                && (forall|i: int| 0 <= i < 9 ==> (#[trigger] v@[i]).wid() == self.spec_size().0
                    && v@[i].hei() == self.spec_size().1 && v@[i]@.len() == self.n_cells())
                && (forall|i: int, k: int| 0 <= i < 9 && 0 <= k < self.n_cells()
                    ==> rat_wf(#[trigger] v@[i]@[k]))
                && (forall|i: int, k: int| 0 <= i < 9 && 0 <= k < self.n_cells()
                    ==> rat_eq(
                        #[trigger] v@[i]@[k],
                        lattice_eq(*self, i, k, spec_cs2(disc.delta_x@, disc.delta_t@))))
                && (forall|k: int| 0 <= k < self.n_cells()
                    ==> cell_density(#[trigger] self.cell(k)).n != 0),
            r matches Err(e) ==> e == Error::Overflow || e == Error::DivisionByZero,
    {
        proof {
            use_type_invariant(self);
            self.lemma_wf();
        }
        let ghost gcs2 = spec_cs2(disc.delta_x@, disc.delta_t@);
        let rho = match self.density() {
            Ok(m) => m,
            Err(e) => {
                return Err(e);
            },
        };
        let (ux, uy) = match self.velocity() {
            Ok(m) => m,
            Err(e) => {
                return Err(e);
            },
        };
        let eqs = match compute_equilibrium(&rho, (&ux, &uy), disc) {
            Ok(v) => v,
            Err(e) => {
                return Err(e);
            },
        };
        proof {
            self.lemma_wf();
            use_type_invariant(disc.delta_x);
            use_type_invariant(disc.delta_t);
            crate::scalar::lemma_rat_op_wf(disc.delta_x@, disc.delta_x@);
            crate::scalar::lemma_rat_op_wf(disc.delta_t@, disc.delta_t@);
            crate::scalar::lemma_rat_op_wf(
                rat_int(3), rat_mul(disc.delta_t@, disc.delta_t@));
            lemma_pos_times_pos(disc.delta_x@, disc.delta_x@);
            lemma_pos_times_pos(disc.delta_t@, disc.delta_t@);
            lemma_pos_times_pos(rat_int(3), rat_mul(disc.delta_t@, disc.delta_t@));
            lemma_pos_div_pos(
                rat_mul(disc.delta_x@, disc.delta_x@),
                rat_mul(rat_int(3), rat_mul(disc.delta_t@, disc.delta_t@)));
            use_type_invariant(&rho);
            rho.lemma_cells_wf();
            use_type_invariant(&ux);
            ux.lemma_cells_wf();
            use_type_invariant(&uy);
            uy.lemma_cells_wf();
            assert forall|i: int, k: int| 0 <= i < 9 && 0 <= k < self.n_cells()
                implies rat_eq(#[trigger] eqs@[i]@[k], lattice_eq(*self, i, k, gcs2)) by {
                let c = self.cell(k);
                lemma_cell_partials_wf(c, 9, true);
                lemma_cell_partials_wf(c, 9, false);
                crate::scalar::lemma_rat_op_wf(cell_momentum_x(c), cell_density(c));
                crate::scalar::lemma_rat_op_wf(cell_momentum_y(c), cell_density(c));
                lemma_eq_formula_g_cong(
                    rat_int(spec_cx(i)), rat_int(spec_cy(i)),
                    spec_weight(i), rho@[k], ux@[k], uy@[k], gcs2,
                    spec_weight(i), cell_density(c), cell_velocity_x(c),
                    cell_velocity_y(c), gcs2);
                lemma_eq_formula_g_wf(
                    spec_weight(i), rat_int(spec_cx(i)), rat_int(spec_cy(i)),
                    rho@[k], ux@[k], uy@[k], gcs2);
                lemma_eq_formula_g_wf(
                    spec_weight(i), rat_int(spec_cx(i)), rat_int(spec_cy(i)),
                    cell_density(c), cell_velocity_x(c), cell_velocity_y(c), gcs2);
                crate::scalar::lemma_rat_eq_trans(
                    eqs@[i]@[k],
                    eq_formula(i, rho@[k], ux@[k], uy@[k], gcs2),
                    lattice_eq(*self, i, k, gcs2));
            }
        }
        Ok(eqs)
    }

    /// The equilibrium populations with every direction replaced by its
    /// reversal: entry `i` is the equilibrium of direction `opposite(i)`.
    pub fn swap_equilibrium(&self, disc: &Discretization) -> (r: Result<Vec<Matrix>, Error>)
        requires
            disc.wf(),
        ensures
            r matches Ok(v) ==> v@.len() == 9
                && (forall|i: int| 0 <= i < 9 ==> (#[trigger] v@[i]).wid() == self.spec_size().0
                    && v@[i].hei() == self.spec_size().1 && v@[i]@.len() == self.n_cells())
                && (forall|i: int, k: int| 0 <= i < 9 && 0 <= k < self.n_cells()
                    ==> rat_wf(#[trigger] v@[i]@[k]))
                && (forall|i: int, k: int| 0 <= i < 9 && 0 <= k < self.n_cells()
                    ==> rat_eq(
                        #[trigger] v@[i]@[k],
                        lattice_eq(*self, opposite(i), k,
                            spec_cs2(disc.delta_x@, disc.delta_t@)))),
            r matches Err(e) ==> e == Error::Overflow || e == Error::DivisionByZero,
    {
        let eqs = match self.equilibrium(disc) {
            Ok(v) => v,
            Err(e) => {
                return Err(e);
            },
        };
        let mut out: Vec<Matrix> = Vec::new();
        let mut i: usize = 0;
        while i < 9
            invariant
                eqs@.len() == 9,
                forall|j: int| 0 <= j < 9 ==> (#[trigger] eqs@[j]).wid() == self.spec_size().0
                    && eqs@[j].hei() == self.spec_size().1 && eqs@[j]@.len() == self.n_cells(),
                forall|j: int, k: int| 0 <= j < 9 && 0 <= k < self.n_cells()
                    ==> rat_wf(#[trigger] eqs@[j]@[k]),
                forall|j: int, k: int| 0 <= j < 9 && 0 <= k < self.n_cells()
                    ==> rat_eq(
                        #[trigger] eqs@[j]@[k],
                        lattice_eq(*self, j, k, spec_cs2(disc.delta_x@, disc.delta_t@))),
                i <= 9,
                out@.len() == i,
                forall|j: int| 0 <= j < i ==> (#[trigger] out@[j]).wid() == self.spec_size().0
                    && out@[j].hei() == self.spec_size().1 && out@[j]@.len() == self.n_cells(),
                forall|j: int, k: int| 0 <= j < i && 0 <= k < self.n_cells()
                    ==> rat_wf(#[trigger] out@[j]@[k]),
                forall|j: int, k: int| 0 <= j < i && 0 <= k < self.n_cells()
                    ==> rat_eq(
                        #[trigger] out@[j]@[k],
                        lattice_eq(*self, opposite(j), k,
                            spec_cs2(disc.delta_x@, disc.delta_t@))),
            decreases 9 - i,
        {
            let o = opposite_index(i);
            out.push(eqs[o].clone());
            i = i + 1;
        }
        Ok(out)
    }

    /// The non-equilibrium parts: population minus equilibrium, pairwise.
    pub fn non_equilibrium(&self, disc: &Discretization) -> (r: Result<Vec<Matrix>, Error>)
        requires
            disc.wf(),
        ensures
            r matches Ok(v) ==> v@.len() == 9
                && (forall|i: int| 0 <= i < 9 ==> (#[trigger] v@[i]).wid() == self.spec_size().0
                    && v@[i].hei() == self.spec_size().1 && v@[i]@.len() == self.n_cells())
                && (forall|i: int, k: int| 0 <= i < 9 && 0 <= k < self.n_cells()
                    ==> rat_wf(#[trigger] v@[i]@[k]))
                && (forall|i: int, k: int| 0 <= i < 9 && 0 <= k < self.n_cells()
                    ==> rat_eq(
                        #[trigger] v@[i]@[k],
                        rat_sub(
                            self.pops()[i][k],
                            lattice_eq(*self, i, k, spec_cs2(disc.delta_x@, disc.delta_t@))))),
            r matches Err(e) ==> e == Error::Overflow || e == Error::DivisionByZero,
    {
        proof {
            use_type_invariant(self);
            self.lemma_wf();
        }
        let ghost gcs2 = spec_cs2(disc.delta_x@, disc.delta_t@);
        let eqs = match self.equilibrium(disc) {
            Ok(v) => v,
            Err(e) => {
                return Err(e);
            },
        };
        let mut out: Vec<Matrix> = Vec::new();
        let mut i: usize = 0;
        while i < 9
            invariant
                self.inv(),
                disc.wf(),
                gcs2 == spec_cs2(disc.delta_x@, disc.delta_t@),
                eqs@.len() == 9,
                forall|j: int| 0 <= j < 9 ==> (#[trigger] eqs@[j]).wid() == self.spec_size().0
                    && eqs@[j].hei() == self.spec_size().1 && eqs@[j]@.len() == self.n_cells(),
                forall|j: int, k: int| 0 <= j < 9 && 0 <= k < self.n_cells()
                    ==> rat_eq(#[trigger] eqs@[j]@[k], lattice_eq(*self, j, k, gcs2)),
                forall|k: int| 0 <= k < self.n_cells()
                    ==> cell_density(#[trigger] self.cell(k)).n != 0,
                i <= 9,
                out@.len() == i,
                forall|j: int| 0 <= j < i ==> (#[trigger] out@[j]).wid() == self.spec_size().0
                    && out@[j].hei() == self.spec_size().1 && out@[j]@.len() == self.n_cells(),
                forall|j: int, k: int| 0 <= j < i && 0 <= k < self.n_cells()
                    ==> rat_wf(#[trigger] out@[j]@[k]),
                forall|j: int, k: int| 0 <= j < i && 0 <= k < self.n_cells()
                    ==> rat_eq(
                        #[trigger] out@[j]@[k],
                        rat_sub(self.pops()[j][k], lattice_eq(*self, j, k, gcs2))),
            decreases 9 - i,
        {
            proof {
                self.lemma_wf();
                assert(self.populations@[i as int]@ == self.pops()[i as int]);
            }
            let d = match self.populations[i].sub(&eqs[i]) {
                Ok(m) => m,
                Err(e) => {
                    return Err(e);
                },
            };
            let ei_ref = &eqs[i];
            proof {
                self.lemma_wf();
                let ghost ei = eqs@[i as int]@;
                use_type_invariant(ei_ref);
                ei_ref.lemma_cells_wf();
                use_type_invariant(&d);
                d.lemma_cells_wf();
                use_type_invariant(disc.delta_x);
                use_type_invariant(disc.delta_t);
                assert forall|k: int| 0 <= k < self.n_cells()
                    implies rat_eq(
                        #[trigger] d@[k],
                        rat_sub(self.pops()[i as int][k], lattice_eq(*self, i as int, k, gcs2)))
                    by {
                    let c = self.cell(k);
                    lemma_cell_partials_wf(c, 9, true);
                    lemma_cell_partials_wf(c, 9, false);
                    crate::scalar::lemma_rat_op_wf(cell_momentum_x(c), cell_density(c));
                    crate::scalar::lemma_rat_op_wf(cell_momentum_y(c), cell_density(c));
                    crate::scalar::lemma_rat_op_wf(disc.delta_x@, disc.delta_x@);
                    crate::scalar::lemma_rat_op_wf(disc.delta_t@, disc.delta_t@);
                    crate::scalar::lemma_rat_op_wf(
                        rat_int(3), rat_mul(disc.delta_t@, disc.delta_t@));
                    lemma_pos_times_pos(disc.delta_x@, disc.delta_x@);
                    lemma_pos_times_pos(disc.delta_t@, disc.delta_t@);
                    lemma_pos_times_pos(
                        rat_int(3), rat_mul(disc.delta_t@, disc.delta_t@));
                    lemma_pos_div_pos(
                        rat_mul(disc.delta_x@, disc.delta_x@),
                        rat_mul(rat_int(3), rat_mul(disc.delta_t@, disc.delta_t@)));
                    lemma_eq_formula_g_wf(
                        spec_weight(i as int), rat_int(spec_cx(i as int)),
                        rat_int(spec_cy(i as int)), cell_density(c), cell_velocity_x(c),
                        cell_velocity_y(c), gcs2);
                    crate::scalar::lemma_rewrite_sub(
                        d@[k],
                        self.pops()[i as int][k], ei[k],
                        self.pops()[i as int][k], lattice_eq(*self, i as int, k, gcs2));
                }
            }
            out.push(d);
            i = i + 1;
        }
        Ok(out)
    }
}

/// The nine non-equilibrium parts of one cell: population minus the
/// lattice's own equilibrium, direction by direction.
pub open spec fn neq_cell(l: D2Q9, k: int, cs2: Rat) -> Seq<Rat> {
    Seq::new(9, |i: int| rat_sub(l.pops()[i][k], lattice_eq(l, i, k, cs2)))
}

/// Non-equilibrium parts are well-formed fractions wherever the cell
/// density is nonzero.
pub proof fn lemma_neq_cell_wf(l: D2Q9, k: int, dx: Rat, dt: Rat)
    requires
        l.inv(),
        0 <= k < l.n_cells(),
        rat_wf(dx),
        rat_wf(dt),
        rat_lt(rat_int(0), dx),
        rat_lt(rat_int(0), dt),
        cell_density(l.cell(k)).n != 0,
    ensures
        forall|i: int| 0 <= i < 9
            ==> rat_wf(#[trigger] neq_cell(l, k, spec_cs2(dx, dt))[i]),
    decreases 9int,
{
    l.lemma_wf();
    assert forall|i: int| 0 <= i < 9
        implies rat_wf(#[trigger] neq_cell(l, k, spec_cs2(dx, dt))[i]) by {
        lemma_lattice_eq_wf(l, i, k, dx, dt);
        assert(l.cell(k)[i] == l.pops()[i][k]);
        crate::scalar::lemma_rat_op_wf(l.pops()[i][k], lattice_eq(l, i, k, spec_cs2(dx, dt)));
    }
}

/// The per-lattice equilibrium value is a well-formed fraction wherever
/// the cell density is nonzero.
pub proof fn lemma_lattice_eq_wf(l: D2Q9, i: int, k: int, dx: Rat, dt: Rat)
    requires
        l.inv(),
        0 <= i < 9,
        0 <= k < l.n_cells(),
        rat_wf(dx),
        rat_wf(dt),
        rat_lt(rat_int(0), dx),
        rat_lt(rat_int(0), dt),
        cell_density(l.cell(k)).n != 0,
    ensures
        rat_wf(lattice_eq(l, i, k, spec_cs2(dx, dt))),
{
    l.lemma_wf();
    let c = l.cell(k);
    lemma_cell_partials_wf(c, 9, true);
    lemma_cell_partials_wf(c, 9, false);
    crate::scalar::lemma_rat_op_wf(cell_momentum_x(c), cell_density(c));
    crate::scalar::lemma_rat_op_wf(cell_momentum_y(c), cell_density(c));
    lemma_cs2_pos(dx, dt);
    lemma_eq_formula_g_wf(
        spec_weight(i), rat_int(spec_cx(i)), rat_int(spec_cy(i)), cell_density(c),
        cell_velocity_x(c), cell_velocity_y(c), spec_cs2(dx, dt));
}

/// For a well-formed discretization the squared speed of sound is a
/// positive, well-formed fraction.
pub proof fn lemma_cs2_pos(dx: Rat, dt: Rat)
    requires
        rat_wf(dx),
        rat_wf(dt),
        rat_lt(rat_int(0), dx),
        rat_lt(rat_int(0), dt),
    ensures
        rat_wf(spec_cs2(dx, dt)),
        spec_cs2(dx, dt).n > 0,
{
    crate::scalar::lemma_rat_op_wf(dx, dx);
    crate::scalar::lemma_rat_op_wf(dt, dt);
    crate::scalar::lemma_rat_op_wf(rat_int(3), rat_mul(dt, dt));
    lemma_pos_times_pos(dx, dx);
    lemma_pos_times_pos(dt, dt);
    lemma_pos_times_pos(rat_int(3), rat_mul(dt, dt));
    lemma_pos_div_pos(rat_mul(dx, dx), rat_mul(rat_int(3), rat_mul(dt, dt)));
}

/// The product of two positive fractions is positive.
pub proof fn lemma_pos_times_pos(a: Rat, b: Rat)
    requires
        rat_wf(a),
        rat_wf(b),
        rat_lt(rat_int(0), a),
        rat_lt(rat_int(0), b),
    ensures
        rat_wf(rat_mul(a, b)),
        rat_lt(rat_int(0), rat_mul(a, b)),
{
    crate::scalar::lemma_rat_op_wf(a, b);
    assert(a.n * b.n > 0 && a.d * b.d > 0) by (nonlinear_arith)
        requires
            a.n > 0,
            b.n > 0,
            a.d > 0,
            b.d > 0,
    {
    }
}

/// The quotient of two positive fractions is positive.
pub proof fn lemma_pos_div_pos(a: Rat, b: Rat)
    requires
        rat_wf(a),
        rat_wf(b),
        rat_lt(rat_int(0), a),
        rat_lt(rat_int(0), b),
    ensures
        rat_wf(rat_div(a, b)),
        rat_lt(rat_int(0), rat_div(a, b)),
{
    crate::scalar::lemma_rat_op_wf(a, b);
    assert(a.n * b.d > 0 && a.d * b.n > 0) by (nonlinear_arith)
        requires
            a.n > 0,
            b.n > 0,
            a.d > 0,
            b.d > 0,
    {
    }
}

} // verus!
