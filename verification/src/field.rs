//! Dense two-dimensional scalar fields.
//!
//! A `Matrix` stores a `width` by `height` grid of exact scalars in
//! row-major order (`index = y * width + x`).  It is the container for
//! populations, densities and velocities.  Elementwise operations carry
//! exact contracts over the sequence view; an operation whose result
//! does not fit the scalar representation reports `Error::Overflow`.

use vstd::prelude::*;
use crate::scalar::Error;
use crate::scalar::Rat;
use crate::scalar::Scalar;
use crate::scalar::rat_add;
use crate::scalar::rat_div;
use crate::scalar::rat_eq;
use crate::scalar::rat_int;
use crate::scalar::rat_lt;
use crate::scalar::rat_mul;
use crate::scalar::rat_sub;
use crate::scalar::rat_wf;
use crate::scalar::lemma_rat_eq_trans;
use crate::scalar::lemma_rat_add_cong;

verus! {

/// Exact sum of a sequence of fractions.
pub open spec fn rat_seq_sum(s: Seq<Rat>) -> Rat
    decreases s.len(),
{
    if s.len() == 0 {
        rat_int(0)
    } else {
        rat_add(rat_seq_sum(s.drop_last()), s.last())
    }
}

/// A dense grid of scalars.
pub struct Matrix {
    width: usize,
    height: usize,
    data: Vec<Scalar>,
}

impl View for Matrix {
    type V = Seq<Rat>;

    closed spec fn view(&self) -> Seq<Rat> {
        self.data@.map_values(|s: Scalar| s@)
    }
}

impl Clone for Matrix {
    fn clone(&self) -> (r: Matrix)
        ensures
            r.wid() == self.wid(),
            r.hei() == self.hei(),
            r@ == self@,
    {
        proof {
            use_type_invariant(self);
        }
        Matrix { width: self.width, height: self.height, data: self.data.clone() }
    }
}

impl Matrix {
    /// The cell count always matches the stated shape, and every cell is
    /// a well-formed fraction.
    #[verifier::type_invariant]
    pub closed spec fn shape_inv(self) -> bool {
        &&& self.data@.len() == self.width as int * self.height as int
        &&& self.width as int * self.height as int <= usize::MAX as int
        &&& forall|k: int| 0 <= k < self.data@.len() ==> rat_wf(#[trigger] self.data@[k]@)
    }

    pub closed spec fn wid(&self) -> nat {
        self.width as nat
    }

    pub closed spec fn hei(&self) -> nat {
        self.height as nat
    }

    /// Every cell view is a well-formed fraction.  The hypothesis is the
    /// type invariant, available through `use_type_invariant`.
    pub proof fn lemma_cells_wf(&self)
        requires
            self.shape_inv(),
        ensures
            self@.len() == self.wid() * self.hei(),
            self.wid() * self.hei() <= usize::MAX,
            forall|k: int| 0 <= k < self@.len() ==> rat_wf(#[trigger] self@[k]),
    {
    }

    /// Index of the cell at column `x`, row `y`.
    pub open spec fn idx(&self, x: int, y: int) -> int {
        y * self.wid() as int + x
    }

    /// Build a matrix from row-major data; the slice length must equal
    /// `width * height` or the call reports `InvalidSliceSize`.
    pub fn new(data: Vec<Scalar>, dims: (usize, usize)) -> (r: Result<Matrix, Error>)
        requires
            dims.0 * dims.1 <= usize::MAX,
        ensures
            r matches Ok(m) ==> m.wid() == dims.0 && m.hei() == dims.1
                && m@ == data@.map_values(|s: Scalar| s@)
                && forall|k: int| 0 <= k < m@.len() ==> rat_wf(#[trigger] m@[k]),
            r is Ok <==> data@.len() == dims.0 * dims.1,
            r matches Err(e) ==> e == Error::InvalidSliceSize,
    {
        let (w, h) = dims;
        if data.len() != w * h {
            return Err(Error::InvalidSliceSize);
        }
        let mut i: usize = 0;
        while i < data.len()
            invariant
                i <= data@.len(),
                forall|k: int| 0 <= k < i ==> rat_wf(#[trigger] data@[k]@),
            decreases data@.len() - i,
        {
            let s = data[i];
            proof {
                use_type_invariant(s);
            }
            i = i + 1;
        }
        Ok(Matrix { width: w, height: h, data })
    }

    /// A matrix of the given shape holding `value` everywhere.
    pub fn new_filled(value: Scalar, dims: (usize, usize)) -> (m: Matrix)
        requires
            dims.0 * dims.1 <= usize::MAX,
        ensures
            m.wid() == dims.0,
            m.hei() == dims.1,
            m@.len() == dims.0 * dims.1,
            forall|k: int| 0 <= k < m@.len() ==> m@[k] == value@,
    {
        let (w, h) = dims;
        proof {
            use_type_invariant(value);
        }
        let n: usize = w * h;
        let mut data: Vec<Scalar> = Vec::new();
        let mut i: usize = 0;
        while i < n
            invariant
                i <= n,
                data@.len() == i,
                forall|k: int| 0 <= k < i ==> data@[k] == value,
            decreases n - i,
        {
            data.push(value);
            i = i + 1;
        }
        Matrix { width: w, height: h, data }
    }

    pub fn get_width(&self) -> (w: usize)
        ensures
            w == self.wid(),
    {
        self.width
    }

    pub fn get_height(&self) -> (h: usize)
        ensures
            h == self.hei(),
    {
        self.height
    }

    pub fn get_shape(&self) -> (s: (usize, usize))
        ensures
            s.0 == self.wid(),
            s.1 == self.hei(),
    {
        (self.width, self.height)
    }

    /// Number of cells.
    pub fn len(&self) -> (n: usize)
        ensures
            n == self@.len(),
    {
        self.data.len()
    }

    /// The cell at linear index `k`.
    pub fn at(&self, k: usize) -> (s: Scalar)
        requires
            k < self@.len(),
        ensures
            s@ == self@[k as int],
    {
        proof {
            use_type_invariant(self);
        }
        self.data[k]
    }

    /// The cell at column `x`, row `y`.
    pub fn get(&self, x: usize, y: usize) -> (s: Scalar)
        requires
            x < self.wid(),
            y < self.hei(),
        ensures
            s@ == self@[self.idx(x as int, y as int)],
    {
        proof {
            use_type_invariant(self);
            lemma_grid_index(x as int, y as int, self.wid() as int, self.hei() as int);
        }
        self.data[y * self.width + x]
    }

    /// Replace the cell at column `x`, row `y`.
    pub fn set(&mut self, x: usize, y: usize, value: Scalar)
        requires
            x < old(self).wid(),
            y < old(self).hei(),
        ensures
            final(self).wid() == old(self).wid(),
            final(self).hei() == old(self).hei(),
            final(self)@ == old(self)@.update(old(self).idx(x as int, y as int), value@),
    {
        proof {
            use_type_invariant(&*self);
            lemma_grid_index(x as int, y as int, self.wid() as int, self.hei() as int);
        }
        proof {
            use_type_invariant(value);
        }
        let k: usize = y * self.width + x;
        let mut data = self.data.clone();
        data.set(k, value);
        *self = Matrix { width: self.width, height: self.height, data };
        proof {
            assert(self@ =~= old(self)@.update(old(self).idx(x as int, y as int), value@));
        }
    }

    /// The whole grid as a row-major vector of scalars.
    pub fn get_underlying(&self) -> (v: Vec<Scalar>)
        ensures
            v@.map_values(|s: Scalar| s@) == self@,
    {
        self.data.clone()
    }

    /// Exact elementwise sum; shapes must agree.
    pub fn add(&self, rhs: &Matrix) -> (r: Result<Matrix, Error>)
        requires
            self.wid() == rhs.wid(),
            self.hei() == rhs.hei(),
        ensures
            r matches Ok(m) ==> m.wid() == self.wid() && m.hei() == self.hei()
                && m@.len() == self@.len()
                && forall|k: int| 0 <= k < self@.len()
                    ==> rat_eq(#[trigger] m@[k], rat_add(self@[k], rhs@[k])),
            r matches Err(e) ==> e == Error::Overflow,
    {
        proof {
            use_type_invariant(self);
            use_type_invariant(rhs);
        }
        let n: usize = self.data.len();
        let mut data: Vec<Scalar> = Vec::new();
        let mut i: usize = 0;
        while i < n
            invariant
                i <= n,
                n == self@.len(),
                n == rhs@.len(),
                n == self.data@.len(),
                n == rhs.data@.len(),
                data@.len() == i,
                forall|k: int| 0 <= k < i ==> rat_eq(#[trigger] data@[k]@, rat_add(self@[k], rhs@[k])),
                forall|k: int| 0 <= k < i ==> rat_wf(#[trigger] data@[k]@),
            decreases n - i,
        {
            let s = match self.data[i].add(&rhs.data[i]) {
                Ok(s) => s,
                Err(e) => {
                    return Err(e);
                },
            };
            proof {
                use_type_invariant(s);
            }
            data.push(s);
            i = i + 1;
        }
        proof {
            use_type_invariant(self);
        }
        let m = Matrix { width: self.width, height: self.height, data };
        proof {
            assert(forall|k: int| 0 <= k < n ==> m@[k] == m.data@[k]@);
        }
        Ok(m)
    }

    /// Exact elementwise difference; shapes must agree.
    pub fn sub(&self, rhs: &Matrix) -> (r: Result<Matrix, Error>)
        requires
            self.wid() == rhs.wid(),
            self.hei() == rhs.hei(),
        ensures
            r matches Ok(m) ==> m.wid() == self.wid() && m.hei() == self.hei()
                && m@.len() == self@.len()
                && forall|k: int| 0 <= k < self@.len()
                    ==> rat_eq(#[trigger] m@[k], rat_sub(self@[k], rhs@[k])),
            r matches Err(e) ==> e == Error::Overflow,
    {
        proof {
            use_type_invariant(self);
            use_type_invariant(rhs);
        }
        let n: usize = self.data.len();
        let mut data: Vec<Scalar> = Vec::new();
        let mut i: usize = 0;
        while i < n
            invariant
                i <= n,
                n == self@.len(),
                n == rhs@.len(),
                n == self.data@.len(),
                n == rhs.data@.len(),
                data@.len() == i,
                forall|k: int| 0 <= k < i ==> rat_eq(#[trigger] data@[k]@, rat_sub(self@[k], rhs@[k])),
                forall|k: int| 0 <= k < i ==> rat_wf(#[trigger] data@[k]@),
            decreases n - i,
        {
            let s = match self.data[i].sub(&rhs.data[i]) {
                Ok(s) => s,
                Err(e) => {
                    return Err(e);
                },
            };
            proof {
                use_type_invariant(s);
            }
            data.push(s);
            i = i + 1;
        }
        proof {
            use_type_invariant(self);
        }
        let m = Matrix { width: self.width, height: self.height, data };
        proof {
            assert(forall|k: int| 0 <= k < n ==> m@[k] == m.data@[k]@);
        }
        Ok(m)
    }

    /// Exact elementwise (Hadamard) product; shapes must agree.
    pub fn hadamard(&self, rhs: &Matrix) -> (r: Result<Matrix, Error>)
        requires
            self.wid() == rhs.wid(),
            self.hei() == rhs.hei(),
        ensures
            r matches Ok(m) ==> m.wid() == self.wid() && m.hei() == self.hei()
                && m@.len() == self@.len()
                && forall|k: int| 0 <= k < self@.len()
                    ==> rat_eq(#[trigger] m@[k], rat_mul(self@[k], rhs@[k])),
            r matches Err(e) ==> e == Error::Overflow,
    {
        proof {
            use_type_invariant(self);
            use_type_invariant(rhs);
        }
        let n: usize = self.data.len();
        let mut data: Vec<Scalar> = Vec::new();
        let mut i: usize = 0;
        while i < n
            invariant
                i <= n,
                n == self@.len(),
                n == rhs@.len(),
                n == self.data@.len(),
                n == rhs.data@.len(),
                data@.len() == i,
                forall|k: int| 0 <= k < i ==> rat_eq(#[trigger] data@[k]@, rat_mul(self@[k], rhs@[k])),
                forall|k: int| 0 <= k < i ==> rat_wf(#[trigger] data@[k]@),
            decreases n - i,
        {
            let s = match self.data[i].mul(&rhs.data[i]) {
                Ok(s) => s,
                Err(e) => {
                    return Err(e);
                },
            };
            proof {
                use_type_invariant(s);
            }
            data.push(s);
            i = i + 1;
        }
        proof {
            use_type_invariant(self);
        }
        let m = Matrix { width: self.width, height: self.height, data };
        proof {
            assert(forall|k: int| 0 <= k < n ==> m@[k] == m.data@[k]@);
        }
        Ok(m)
    }

    /// Exact elementwise quotient; shapes must agree.  A zero cell in the
    /// divisor reports `DivisionByZero`.
    pub fn divide(&self, rhs: &Matrix) -> (r: Result<Matrix, Error>)
        requires
            self.wid() == rhs.wid(),
            self.hei() == rhs.hei(),
        ensures
            r matches Ok(m) ==> m.wid() == self.wid() && m.hei() == self.hei()
                && m@.len() == self@.len()
                && forall|k: int| 0 <= k < self@.len()
                    ==> rat_eq(#[trigger] m@[k], rat_div(self@[k], rhs@[k])),
            r matches Ok(m) ==> forall|k: int| 0 <= k < self@.len() ==> (#[trigger] rhs@[k].n) != 0,
            r matches Err(e) ==> e == Error::Overflow || e == Error::DivisionByZero,
    {
        proof {
            use_type_invariant(self);
            use_type_invariant(rhs);
        }
        let n: usize = self.data.len();
        let mut data: Vec<Scalar> = Vec::new();
        let mut i: usize = 0;
        while i < n
            invariant
                i <= n,
                n == self@.len(),
                n == rhs@.len(),
                n == self.data@.len(),
                n == rhs.data@.len(),
                data@.len() == i,
                forall|k: int| 0 <= k < i ==> rat_eq(#[trigger] data@[k]@, rat_div(self@[k], rhs@[k])),
                forall|k: int| 0 <= k < i ==> (#[trigger] rhs@[k].n) != 0,
                forall|k: int| 0 <= k < i ==> rat_wf(#[trigger] data@[k]@),
            decreases n - i,
        {
            let s = match self.data[i].div(&rhs.data[i]) {
                Ok(s) => s,
                Err(e) => {
                    return Err(e);
                },
            };
            proof {
                use_type_invariant(s);
            }
            data.push(s);
            i = i + 1;
        }
        proof {
            use_type_invariant(self);
        }
        let m = Matrix { width: self.width, height: self.height, data };
        proof {
            assert(forall|k: int| 0 <= k < n ==> m@[k] == m.data@[k]@);
        }
        Ok(m)
    }

    /// Exact multiplication of every cell by `scalar`.
    pub fn scale(&self, scalar: &Scalar) -> (r: Result<Matrix, Error>)
        ensures
            r matches Ok(m) ==> m.wid() == self.wid() && m.hei() == self.hei()
                && m@.len() == self@.len()
                && forall|k: int| 0 <= k < self@.len()
                    ==> rat_eq(#[trigger] m@[k], rat_mul(self@[k], scalar@)),
            r matches Err(e) ==> e == Error::Overflow,
    {
        proof {
            use_type_invariant(self);
        }
        let n: usize = self.data.len();
        let mut data: Vec<Scalar> = Vec::new();
        let mut i: usize = 0;
        while i < n
            invariant
                i <= n,
                n == self@.len(),
                n == self.data@.len(),
                data@.len() == i,
                forall|k: int| 0 <= k < i ==> rat_eq(#[trigger] data@[k]@, rat_mul(self@[k], scalar@)),
                forall|k: int| 0 <= k < i ==> rat_wf(#[trigger] data@[k]@),
            decreases n - i,
        {
            let s = match self.data[i].mul(scalar) {
                Ok(s) => s,
                Err(e) => {
                    return Err(e);
                },
            };
            proof {
                use_type_invariant(s);
            }
            data.push(s);
            i = i + 1;
        }
        proof {
            use_type_invariant(self);
        }
        let m = Matrix { width: self.width, height: self.height, data };
        proof {
            assert(forall|k: int| 0 <= k < n ==> m@[k] == m.data@[k]@);
        }
        Ok(m)
    }

    /// Exact addition of `scalar` to every cell.
    pub fn shift(&self, scalar: &Scalar) -> (r: Result<Matrix, Error>)
        ensures
            r matches Ok(m) ==> m.wid() == self.wid() && m.hei() == self.hei()
                && m@.len() == self@.len()
                && forall|k: int| 0 <= k < self@.len()
                    ==> rat_eq(#[trigger] m@[k], rat_add(self@[k], scalar@)),
            r matches Err(e) ==> e == Error::Overflow,
    {
        proof {
            use_type_invariant(self);
        }
        let n: usize = self.data.len();
        let mut data: Vec<Scalar> = Vec::new();
        let mut i: usize = 0;
        while i < n
            invariant
                i <= n,
                n == self@.len(),
                n == self.data@.len(),
                data@.len() == i,
                forall|k: int| 0 <= k < i ==> rat_eq(#[trigger] data@[k]@, rat_add(self@[k], scalar@)),
                forall|k: int| 0 <= k < i ==> rat_wf(#[trigger] data@[k]@),
            decreases n - i,
        {
            let s = match self.data[i].add(scalar) {
                Ok(s) => s,
                Err(e) => {
                    return Err(e);
                },
            };
            proof {
                use_type_invariant(s);
            }
            data.push(s);
            i = i + 1;
        }
        proof {
            use_type_invariant(self);
        }
        let m = Matrix { width: self.width, height: self.height, data };
        proof {
            assert(forall|k: int| 0 <= k < n ==> m@[k] == m.data@[k]@);
        }
        Ok(m)
    }

    /// Exact sum over all cells.
    pub fn sum(&self) -> (r: Result<Scalar, Error>)
        ensures
            r matches Ok(s) ==> rat_eq(s@, rat_seq_sum(self@)),
            r matches Err(e) ==> e == Error::Overflow,
    {
        proof {
            use_type_invariant(self);
        }
        let n: usize = self.data.len();
        let mut acc = Scalar::zero();
        let mut i: usize = 0;
        while i < n
            invariant
                i <= n,
                n == self@.len(),
                n == self.data@.len(),
                self.shape_inv(),
                rat_eq(acc@, rat_seq_sum(self@.take(i as int))),
            decreases n - i,
        {
            let cell = self.data[i];
            let next = match acc.add(&cell) {
                Ok(s) => s,
                Err(e) => {
                    return Err(e);
                },
            };
            proof {
                use_type_invariant(acc);
                use_type_invariant(cell);
                use_type_invariant(next);
                self.lemma_cells_wf();
                lemma_rat_wf_seq_sum(self@.take(i as int));
                lemma_rat_add_cong(acc@, cell@, rat_seq_sum(self@.take(i as int)), cell@);
                vstd::arithmetic::mul::lemma_mul_strictly_positive(acc@.d, cell@.d);
                assert(self@.take(i + 1).drop_last() =~= self@.take(i as int));
                assert(self@.take(i + 1).last() == self@[i as int]);
                lemma_rat_wf_seq_sum(self@.take(i + 1));
                lemma_rat_eq_trans(
                    next@,
                    rat_add(acc@, cell@),
                    rat_seq_sum(self@.take(i + 1)),
                );
            }
            acc = next;
            i = i + 1;
        }
        proof {
            assert(self@.take(n as int) =~= self@);
        }
        Ok(acc)
    }

    /// Whether any cell is strictly negative.
    pub fn has_negative(&self) -> (r: bool)
        ensures
            r <==> exists|k: int| 0 <= k < self@.len() && rat_lt(#[trigger] self@[k], rat_int(0)),
    {
        proof {
            use_type_invariant(self);
        }
        let n: usize = self.data.len();
        let mut i: usize = 0;
        while i < n
            invariant
                i <= n,
                n == self@.len(),
                n == self.data@.len(),
                forall|k: int| 0 <= k < i ==> !rat_lt(#[trigger] self@[k], rat_int(0)),
            decreases n - i,
        {
            if self.data[i].is_negative() {
                proof {
                    assert(rat_lt(self@[i as int], rat_int(0)));
                }
                return true;
            }
            i = i + 1;
        }
        false
    }
}

/// Every partial sum of well-formed fractions is well-formed.
pub proof fn lemma_rat_wf_seq_sum(s: Seq<Rat>)
    requires
        forall|k: int| 0 <= k < s.len() ==> rat_wf(#[trigger] s[k]),
    ensures
        rat_wf(rat_seq_sum(s)),
    decreases s.len(),
{
    if s.len() > 0 {
        lemma_rat_wf_seq_sum(s.drop_last());
        vstd::arithmetic::mul::lemma_mul_strictly_positive(
            rat_seq_sum(s.drop_last()).d, s.last().d);
    }
}

/// A grid index stays inside the cell count.
pub proof fn lemma_grid_index(x: int, y: int, w: int, h: int)
    by (nonlinear_arith)
    requires
        0 <= x < w,
        0 <= y < h,
    ensures
        0 <= y * w + x < w * h,
{
}

} // verus!
