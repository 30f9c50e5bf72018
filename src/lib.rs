//! Dense matrix multiplication over `i64`, in two layouts with compile-time extents: `Matrix`
//! (nested rows) and `dynamic::DynMatrics` (one flat row-major buffer). Each computes the
//! product sequentially, and can compute any band of its rows on its own, so that the rows
//! can be shared among workers along `partition::partition_rows` and joined back with
//! `from_row_blocks`. `laws` states what holds of the product.

use vstd::prelude::*;

pub mod dynamic;
pub mod laws;
pub mod model;
pub mod partition;

use crate::model::{
    dot_prefix, entry_fits, fits_i64, is_grid, lemma_product_fits_by_entries, product, product_fits,
    zeros,
};
use crate::partition::{concat_blocks, lemma_concat_prefix_len};

verus! {

broadcast use vstd::array::group_array_axioms;

/// An `R`-by-`C` matrix of `i64`, stored as `R` rows of `C` elements.
#[derive(Debug, PartialEq, Eq, Clone)]
pub struct Matrix<const R: usize, const C: usize> {
    data: Box<[[i64; C]; R]>,
}

impl<const R: usize, const C: usize> View for Matrix<R, C> {
    type V = Seq<Seq<i64>>;

    closed spec fn view(&self) -> Seq<Seq<i64>> {
        Seq::new(R as nat, |i: int| self.data@[i]@)
    }
}

/// Rows held as arrays, as sequences.
pub open spec fn array_rows<const C: usize>(rows: Seq<[i64; C]>) -> Seq<Seq<i64>> {
    rows.map_values(|row: [i64; C]| row@)
}

/// Blocks of rows held as arrays, as sequences.
pub open spec fn array_blocks<const C: usize>(blocks: Seq<Vec<[i64; C]>>) -> Seq<Seq<Seq<i64>>> {
    blocks.map_values(|b: Vec<[i64; C]>| array_rows(b@))
}

/// The rows of a nested array, as sequences.
pub open spec fn rows_of<const R: usize, const C: usize>(data: [[i64; C]; R]) -> Seq<Seq<i64>> {
    Seq::new(R as nat, |i: int| data@[i]@)
}

impl<const R: usize, const C: usize> Default for Matrix<R, C> {
    /// The matrix whose elements are all zero.
    fn default() -> (r: Self)
        ensures
            r@ == zeros(R as nat, C as nat),
    {
        let row = [0i64; C];
        let r = Matrix { data: Box::new([row; R]) };
        assert(r@ =~= zeros(R as nat, C as nat)) by {
            assert forall|i: int| 0 <= i < R implies r@[i] =~= zeros(R as nat, C as nat)[i] by {
                assert(r.data@[i] == row);
            }
        }
        r
    }
}

impl<const R: usize, const C: usize> From<[[i64; C]; R]> for Matrix<R, C> {
    /// The matrix whose rows are the rows of `data`.
    fn from(data: [[i64; C]; R]) -> (r: Self) {
        Matrix { data: Box::new(data) }
    }
}

impl<const R: usize, const C: usize> vstd::std_specs::convert::FromSpecImpl<[[i64; C]; R]> for Matrix<R, C> {
    open spec fn obeys_from_spec() -> bool {
        true
    }

    closed spec fn from_spec(data: [[i64; C]; R]) -> Self {
        Matrix { data: Box::new(data) }
    }
}

impl<const R: usize, const C: usize> Matrix<R, C> {
    /// A matrix built from nested rows holds exactly those rows.
    pub proof fn lemma_from_rows(data: [[i64; C]; R])
        ensures
            <Self as vstd::std_specs::convert::FromSpec<[[i64; C]; R]>>::from_spec(data)@ == rows_of(data),
    {
        assert(<Self as vstd::std_specs::convert::FromSpec<[[i64; C]; R]>>::from_spec(data)@ =~= rows_of(data));
    }

    /// A view of row `i`.
    pub fn row(&self, i: usize) -> (r: &[i64; C])
        requires
            i < R,
        ensures
            r@ == self@[i as int],
    {
        &self.data[i]
    }

    /// Element `(i, j)`.
    pub fn get(&self, i: usize, j: usize) -> (r: i64)
        requires
            i < R,
            j < C,
        ensures
            r == self@[i as int][j as int],
    {
        self.data[i][j]
    }

    /// Replaces element `(i, j)` with `v`, leaving the others as they were.
    pub fn set(&mut self, i: usize, j: usize, v: i64)
        requires
            i < R,
            j < C,
        ensures
            final(self)@ == old(self)@.update(i as int, old(self)@[i as int].update(j as int, v)),
    {
        let mut row = self.data[i];
        row[j] = v;
        self.data[i] = row;
        assert(final(self)@ =~= old(self)@.update(i as int, old(self)@[i as int].update(j as int, v)));
    }
}

impl<const X: usize, const Y: usize> Matrix<X, Y> {
    /// Whether computing element `(i, j)` of the product stays in the range of `i64`.
    fn entry_in_range<const Z: usize>(&self, other: &Matrix<Y, Z>, i: usize, j: usize) -> (r: bool)
        requires
            i < X,
            j < Z,
        ensures
            r == entry_fits(self@, other@, i as int, j as int, Y as nat),
    {
        let mut sum: i64 = 0;
        let mut k: usize = 0;
        while k < Y
            invariant
                i < X,
                j < Z,
                k <= Y,
                sum as int == dot_prefix(self@, other@, i as int, j as int, k as nat),
                forall|t: int|
                    0 <= t < k ==> fits_i64(#[trigger] (self@[i as int][t] * other@[t][j as int]))
                        && fits_i64(dot_prefix(self@, other@, i as int, j as int, (t + 1) as nat)),
            decreases Y - k,
        {
            match self.data[i][k].checked_mul(other.data[k][j]) {
                None => {
                    assert(!fits_i64(self@[i as int][k as int] * other@[k as int][j as int]));
                    return false;
                },
                Some(m) => match sum.checked_add(m) {
                    None => {
                        assert(!fits_i64(
                            dot_prefix(self@, other@, i as int, j as int, (k + 1) as nat),
                        ));
                        assert(fits_i64(self@[i as int][k as int] * other@[k as int][j as int]));
                        return false;
                    },
                    Some(next) => {
                        sum = next;
                    },
                },
            }
            k = k + 1;
        }
        true
    }

    /// Whether every product and partial sum met while computing the product of `self` and
    /// `other` stays in the range of `i64`: the condition under which the product can be
    /// computed.
    pub fn fits_product<const Z: usize>(&self, other: &Matrix<Y, Z>) -> (r: bool)
        ensures
            r == product_fits(self@, other@, X as nat, Y as nat, Z as nat),
    {
        proof {
            lemma_product_fits_by_entries(self@, other@, X as nat, Y as nat, Z as nat);
        }
        let mut i: usize = 0;
        while i < X
            invariant
                i <= X,
                forall|a: int, b: int|
                    0 <= a < i && 0 <= b < Z ==> #[trigger] entry_fits(self@, other@, a, b, Y as nat),
            decreases X - i,
        {
            let mut j: usize = 0;
            while j < Z
                invariant
                    i < X,
                    j <= Z,
                    forall|a: int, b: int|
                        0 <= a < i && 0 <= b < Z ==> #[trigger] entry_fits(self@, other@, a, b, Y as nat),
                    forall|b: int| 0 <= b < j ==> #[trigger] entry_fits(self@, other@, i as int, b, Y as nat),
                decreases Z - j,
            {
                if !self.entry_in_range(other, i, j) {
                    return false;
                }
                j = j + 1;
            }
            i = i + 1;
        }
        true
    }

    /// Row `i` of the product of `self` and `other`.
    fn product_row<const Z: usize>(&self, other: &Matrix<Y, Z>, i: usize) -> (r: [i64; Z])
        requires
            i < X,
            product_fits(self@, other@, X as nat, Y as nat, Z as nat),
        ensures
            r@ == product(self@, other@, X as nat, Y as nat, Z as nat)[i as int],
    {
        let ghost p = product(self@, other@, X as nat, Y as nat, Z as nat);
        let mut row = [0i64; Z];
        let mut j: usize = 0;
        while j < Z
            invariant
                i < X,
                j <= Z,
                p == product(self@, other@, X as nat, Y as nat, Z as nat),
                product_fits(self@, other@, X as nat, Y as nat, Z as nat),
                forall|c: int| 0 <= c < j ==> row@[c] == #[trigger] p[i as int][c],
            decreases Z - j,
        {
            let mut sum: i64 = 0;
            let mut k: usize = 0;
            while k < Y
                invariant
                    i < X,
                    j < Z,
                    k <= Y,
                    product_fits(self@, other@, X as nat, Y as nat, Z as nat),
                    sum as int == dot_prefix(self@, other@, i as int, j as int, k as nat),
                decreases Y - k,
            {
                proof {
                    assert(fits_i64(self@[i as int][k as int] * other@[k as int][j as int]));
                    assert(fits_i64(dot_prefix(self@, other@, i as int, j as int, (k + 1) as nat)));
                }
                sum = sum + self.data[i][k] * other.data[k][j];
                k = k + 1;
            }
            row[j] = sum;
            j = j + 1;
        }
        assert(row@ =~= p[i as int]);
        row
    }

    /// The product of `self` (`X`-by-`Y`) and `other` (`Y`-by-`Z`): element `(i, j)` is the
    /// sum over `k` of `self[i][k] * other[k][j]`, accumulated with `k` ascending from zero.
    pub fn dot_product<const Z: usize>(&self, other: &Matrix<Y, Z>) -> (r: Matrix<X, Z>)
        requires
            product_fits(self@, other@, X as nat, Y as nat, Z as nat),
        ensures
            r@ == product(self@, other@, X as nat, Y as nat, Z as nat),
    {
        let ghost p = product(self@, other@, X as nat, Y as nat, Z as nat);
        let mut result = Matrix::<X, Z>::default();
        let mut i: usize = 0;
        while i < X
            invariant
                i <= X,
                p == product(self@, other@, X as nat, Y as nat, Z as nat),
                product_fits(self@, other@, X as nat, Y as nat, Z as nat),
                forall|r: int| 0 <= r < i ==> (#[trigger] result.data@[r])@ == p[r],
            decreases X - i,
        {
            let row = self.product_row(other, i);
            result.data[i] = row;
            i = i + 1;
        }
        assert(result@ =~= p);
        result
    }

    /// Rows `start..end` of the product of `self` and `other`, in order: the share of the
    /// product that one worker computes.
    pub fn dot_product_rows<const Z: usize>(&self, other: &Matrix<Y, Z>, start: usize, end: usize) -> (r:
        Vec<[i64; Z]>)
        requires
            start <= end <= X,
            product_fits(self@, other@, X as nat, Y as nat, Z as nat),
        ensures
            array_rows(r@) == product(self@, other@, X as nat, Y as nat, Z as nat).subrange(
                start as int,
                end as int,
            ),
    {
        let ghost p = product(self@, other@, X as nat, Y as nat, Z as nat);
        let mut rows: Vec<[i64; Z]> = Vec::new();
        let mut i: usize = start;
        while i < end
            invariant
                start <= i <= end <= X,
                p == product(self@, other@, X as nat, Y as nat, Z as nat),
                product_fits(self@, other@, X as nat, Y as nat, Z as nat),
                array_rows(rows@) =~= p.subrange(start as int, i as int),
            decreases end - i,
        {
            let row = self.product_row(other, i);
            let ghost before = rows@;
            rows.push(row);
            assert(array_rows(rows@) =~= array_rows(before).push(row@));
            assert(p.subrange(start as int, i + 1) =~= p.subrange(start as int, i as int).push(
                p[i as int],
            ));
            i = i + 1;
        }
        rows
    }
}

impl<const R: usize, const C: usize> Matrix<R, C> {
    /// Every row of the matrix has `C` elements and there are `R` rows.
    pub proof fn lemma_view_is_grid(&self)
        ensures
            is_grid(self@, R as nat, C as nat),
    {
    }

    /// The matrix whose rows are those of `blocks` joined in order, or `None` when they do
    /// not come to exactly `R` rows.
    pub fn from_row_blocks(blocks: Vec<Vec<[i64; C]>>) -> (r: Option<Self>)
        ensures
            r is Some <==> concat_blocks(array_blocks(blocks@)).len() == R,
            r is Some ==> r->Some_0@ == concat_blocks(array_blocks(blocks@)),
    {
        let ghost all = array_blocks(blocks@);
        let mut result = Self::default();
        let mut pos: usize = 0;
        let mut c: usize = 0;
        while c < blocks.len()
            invariant
                c <= blocks@.len(),
                all == array_blocks(blocks@),
                pos == concat_blocks(all.subrange(0, c as int)).len(),
                pos <= R,
                forall|q: int| 0 <= q < pos ==> (#[trigger] result.data@[q])@ == concat_blocks(
                    all.subrange(0, c as int),
                )[q],
            decreases blocks@.len() - c,
        {
            let ghost done = concat_blocks(all.subrange(0, c as int));
            assert(all.subrange(0, c + 1).drop_last() =~= all.subrange(0, c as int));
            let block = &blocks[c];
            let mut t: usize = 0;
            while t < block.len()
                invariant
                    c < blocks@.len(),
                    block == blocks@[c as int],
                    all == array_blocks(blocks@),
                    done == concat_blocks(all.subrange(0, c as int)),
                    concat_blocks(all.subrange(0, c + 1)) == done + all[c as int],
                    t <= block@.len(),
                    pos == done.len() + t,
                    pos <= R,
                    forall|q: int| 0 <= q < pos ==> (#[trigger] result.data@[q])@ == (done
                        + all[c as int])[q],
                decreases block@.len() - t,
            {
                if pos == R {
                    proof {
                        lemma_concat_prefix_len(all, c + 1);
                        assert(all.subrange(0, all.len() as int) =~= all);
                    }
                    return None;
                }
                result.data[pos] = block[t];
                pos = pos + 1;
                t = t + 1;
            }
            assert(all[c as int].len() == block@.len());
            c = c + 1;
        }
        assert(all.subrange(0, blocks@.len() as int) =~= all);
        if pos == R {
            assert(result@ =~= concat_blocks(all));
            Some(result)
        } else {
            None
        }
    }
}

} // verus!
