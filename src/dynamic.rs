use vstd::prelude::*;

use crate::model::{
    dot_prefix, entry_fits, fits_i64, is_grid, lemma_product_fits_by_entries, product, product_fits,
    zeros,
};
use crate::partition::concat_blocks;

verus! {

/// An `R`-by-`C` matrix of `i64` held in one flat buffer in row-major order: element
/// `(i, j)` sits at position `i * C + j`.
#[derive(Debug, PartialEq, Eq, Clone)]
pub struct DynMatrics<const R: usize, const C: usize> {
    data: Vec<i64>,
}

/// Flat blocks, as sequences.
pub open spec fn flat_blocks(blocks: Seq<Vec<i64>>) -> Seq<Seq<i64>> {
    blocks.map_values(|b: Vec<i64>| b@)
}

/// The rows of a flat row-major buffer of `r` rows of `c` elements.
pub open spec fn rows_of_flat(s: Seq<i64>, r: nat, c: nat) -> Seq<Seq<i64>> {
    Seq::new(r, |i: int| Seq::new(c, |j: int| s[i * c + j]))
}

impl<const R: usize, const C: usize> View for DynMatrics<R, C> {
    type V = Seq<Seq<i64>>;

    closed spec fn view(&self) -> Seq<Seq<i64>> {
        rows_of_flat(self.data@, R as nat, C as nat)
    }
}

proof fn lemma_flat_index(i: int, j: int, r: int, c: int)
    requires
        0 <= i < r,
        0 <= j < c,
    ensures
        0 <= i * c + j < r * c,
{
    assert(0 <= i * c + j < r * c) by (nonlinear_arith)
        requires
            0 <= i < r,
            0 <= j < c,
    ;
}

impl<const R: usize, const C: usize> DynMatrics<R, C> {
    /// The buffer holds exactly `R * C` elements.
    pub closed spec fn wf(&self) -> bool {
        self.data@.len() == R * C
    }

    /// A view of row `i`: the `C` elements from position `i * C` on.
    pub fn row(&self, i: usize) -> (r: &[i64])
        requires
            self.wf(),
            i < R,
        ensures
            r@ == self@[i as int],
    {
        proof {
            assert(self.data.len() == self.data@.len());
            assert((i + 1) * C <= R * C) by (nonlinear_arith)
                requires
                    i < R,
            ;
            assert((i + 1) * C == i * C + C) by (nonlinear_arith);
        }
        let start = i * C;
        let r = vstd::slice::slice_subrange(self.data.as_slice(), start, start + C);
        assert(r@ =~= self@[i as int]);
        r
    }

    /// Element `(i, j)`.
    pub fn get(&self, i: usize, j: usize) -> (r: i64)
        requires
            self.wf(),
            i < R,
            j < C,
        ensures
            r == self@[i as int][j as int],
    {
        proof {
            lemma_flat_index(i as int, j as int, R as int, C as int);
            assert(self.data.len() == self.data@.len());
        }
        self.data[i * C + j]
    }

    /// Replaces element `(i, j)` with `v`, leaving the others as they were.
    pub fn set(&mut self, i: usize, j: usize, v: i64)
        requires
            old(self).wf(),
            i < R,
            j < C,
        ensures
            final(self).wf(),
            final(self)@ == old(self)@.update(i as int, old(self)@[i as int].update(j as int, v)),
    {
        proof {
            lemma_flat_index(i as int, j as int, R as int, C as int);
            assert(self.data.len() == self.data@.len());
        }
        let ghost before = self.data@;
        let pos = i * C + j;
        self.data.set(pos, v);
        proof {
            let after = old(self)@.update(i as int, old(self)@[i as int].update(j as int, v));
            assert forall|a: int| 0 <= a < R implies final(self)@[a] =~= after[a] by {
                assert forall|b: int| 0 <= b < C implies final(self)@[a][b] == after[a][b] by {
                    lemma_flat_index(a, b, R as int, C as int);
                    if a != i || b != j {
                        assert(a * C + b != i * C + j) by (nonlinear_arith)
                            requires
                                a != i || b != j,
                                0 <= b < C,
                                0 <= j < C,
                        ;
                    }
                }
            }
            assert(final(self)@ =~= after);
        }
    }
}

impl<const X: usize, const Y: usize> DynMatrics<X, Y> {
    /// Whether computing element `(i, j)` of the product stays in the range of `i64`.
    fn entry_in_range<const Z: usize>(&self, other: &DynMatrics<Y, Z>, i: usize, j: usize) -> (r: bool)
        requires
            self.wf(),
            other.wf(),
            i < X,
            j < Z,
        ensures
            r == entry_fits(self@, other@, i as int, j as int, Y as nat),
    {
        let mut sum: i64 = 0;
        let mut k: usize = 0;
        while k < Y
            invariant
                i < X,
                j < Z,
                k <= Y,
                self.wf(),
                other.wf(),
                sum as int == dot_prefix(self@, other@, i as int, j as int, k as nat),
                forall|t: int|
                    0 <= t < k ==> fits_i64(#[trigger] (self@[i as int][t] * other@[t][j as int]))
                        && fits_i64(dot_prefix(self@, other@, i as int, j as int, (t + 1) as nat)),
            decreases Y - k,
        {
            let x = self.get(i, k);
            let y = other.get(k, j);
            match x.checked_mul(y) {
                None => {
                    assert(!fits_i64(self@[i as int][k as int] * other@[k as int][j as int]));
                    return false;
                },
                Some(m) => match sum.checked_add(m) {
                    None => {
                        assert(!fits_i64(
                            dot_prefix(self@, other@, i as int, j as int, (k + 1) as nat),
                        ));
                        assert(fits_i64(self@[i as int][k as int] * other@[k as int][j as int]));
                        return false;
                    },
                    Some(next) => {
                        sum = next;
                    },
                },
            }
            k = k + 1;
        }
        true
    }

    /// Whether every product and partial sum met while computing the product of `self` and
    /// `other` stays in the range of `i64`: the condition under which the product can be
    /// computed.
    pub fn fits_product<const Z: usize>(&self, other: &DynMatrics<Y, Z>) -> (r: bool)
        requires
            self.wf(),
            other.wf(),
        ensures
            r == product_fits(self@, other@, X as nat, Y as nat, Z as nat),
    {
        proof {
            lemma_product_fits_by_entries(self@, other@, X as nat, Y as nat, Z as nat);
        }
        let mut i: usize = 0;
        while i < X
            invariant
                i <= X,
                self.wf(),
                other.wf(),
                forall|a: int, b: int|
                    0 <= a < i && 0 <= b < Z ==> #[trigger] entry_fits(self@, other@, a, b, Y as nat),
            decreases X - i,
        {
            let mut j: usize = 0;
            while j < Z
                invariant
                    i < X,
                    j <= Z,
                    self.wf(),
                    other.wf(),
                    forall|a: int, b: int|
                        0 <= a < i && 0 <= b < Z ==> #[trigger] entry_fits(self@, other@, a, b, Y as nat),
                    forall|b: int| 0 <= b < j ==> #[trigger] entry_fits(self@, other@, i as int, b, Y as nat),
                decreases Z - j,
            {
                if !self.entry_in_range(other, i, j) {
                    return false;
                }
                j = j + 1;
            }
            i = i + 1;
        }
        true
    }

    /// Element `(i, j)` of the product of `self` and `other`.
    fn product_entry<const Z: usize>(&self, other: &DynMatrics<Y, Z>, i: usize, j: usize) -> (r: i64)
        requires
            self.wf(),
            other.wf(),
            i < X,
            j < Z,
            product_fits(self@, other@, X as nat, Y as nat, Z as nat),
        ensures
            r == product(self@, other@, X as nat, Y as nat, Z as nat)[i as int][j as int],
    {
        proof {
            assert(self.data.len() == self.data@.len());
            assert(other.data.len() == other.data@.len());
        }
        let mut sum: i64 = 0;
        let mut k: usize = 0;
        while k < Y
            invariant
                i < X,
                j < Z,
                k <= Y,
                self.wf(),
                other.wf(),
                self.data@.len() <= usize::MAX,
                other.data@.len() <= usize::MAX,
                product_fits(self@, other@, X as nat, Y as nat, Z as nat),
                sum as int == dot_prefix(self@, other@, i as int, j as int, k as nat),
            decreases Y - k,
        {
            proof {
                lemma_flat_index(i as int, k as int, X as int, Y as int);
                lemma_flat_index(k as int, j as int, Y as int, Z as int);
                assert(fits_i64(self@[i as int][k as int] * other@[k as int][j as int]));
                assert(fits_i64(dot_prefix(self@, other@, i as int, j as int, (k + 1) as nat)));
            }
            sum = sum + self.data[i * Y + k] * other.data[k * Z + j];
            k = k + 1;
        }
        sum
    }

    /// The product of `self` (`X`-by-`Y`) and `other` (`Y`-by-`Z`): element `(i, j)` is the
    /// sum over `k` of `self[i * Y + k] * other[k * Z + j]`, accumulated with `k` ascending
    /// from zero.
    pub fn dot_product<const Z: usize>(&self, other: &DynMatrics<Y, Z>) -> (r: DynMatrics<X, Z>)
        requires
            self.wf(),
            other.wf(),
            product_fits(self@, other@, X as nat, Y as nat, Z as nat),
        ensures
            r.wf(),
            r@ == product(self@, other@, X as nat, Y as nat, Z as nat),
    {
        let out = self.dot_product_rows(other, 0, X);
        let ghost p = product(self@, other@, X as nat, Y as nat, Z as nat);
        assert(p.subrange(0, X as int) =~= p);
        DynMatrics { data: out }
    }

    /// Rows `start..end` of the product of `self` and `other` as one flat buffer, row after
    /// row: the share of the product that one worker computes.
    pub fn dot_product_rows<const Z: usize>(&self, other: &DynMatrics<Y, Z>, start: usize, end: usize) -> (r:
        Vec<i64>)
        requires
            self.wf(),
            other.wf(),
            start <= end <= X,
            product_fits(self@, other@, X as nat, Y as nat, Z as nat),
        ensures
            r@.len() == (end - start) * Z,
            rows_of_flat(r@, (end - start) as nat, Z as nat) == product(
                self@,
                other@,
                X as nat,
                Y as nat,
                Z as nat,
            ).subrange(start as int, end as int),
    {
        let ghost p = product(self@, other@, X as nat, Y as nat, Z as nat);
        let mut out: Vec<i64> = Vec::new();
        let mut i: usize = start;
        while i < end
            invariant
                start <= i <= end <= X,
                self.wf(),
                other.wf(),
                p == product(self@, other@, X as nat, Y as nat, Z as nat),
                product_fits(self@, other@, X as nat, Y as nat, Z as nat),
                out@.len() == (i - start) * Z,
                forall|a: int, b: int|
                    start <= a < i && 0 <= b < Z ==> out@[(a - start) * Z + b] == #[trigger] p[a][b],
            decreases end - i,
        {
            let mut j: usize = 0;
            while j < Z
                invariant
                    start <= i < end <= X,
                    j <= Z,
                    self.wf(),
                    other.wf(),
                    p == product(self@, other@, X as nat, Y as nat, Z as nat),
                    product_fits(self@, other@, X as nat, Y as nat, Z as nat),
                    out@.len() == (i - start) * Z + j,
                    forall|a: int, b: int|
                        start <= a < i && 0 <= b < Z ==> out@[(a - start) * Z + b] == #[trigger] p[a][b],
                    forall|b: int| 0 <= b < j ==> out@[(i - start) * Z + b] == #[trigger] p[i as int][b],
                decreases Z - j,
            {
                let v = self.product_entry(other, i, j);
                let ghost before = out@;
                out.push(v);
                proof {
                    assert forall|a: int, b: int|
                        start <= a < i && 0 <= b < Z implies out@[(a - start) * Z + b] == #[trigger] p[a][b] by {
                        lemma_flat_index(a - start, b, i - start, Z as int);
                        assert(before[(a - start) * Z + b] == p[a][b]);
                    }
                }
                j = j + 1;
            }
            assert((i - start + 1) * Z == (i - start) * Z + Z) by (nonlinear_arith);
            i = i + 1;
        }
        let ghost n = (end - start) as nat;
        assert forall|a: int| 0 <= a < n implies rows_of_flat(out@, n, Z as nat)[a] =~= p.subrange(
            start as int,
            end as int,
        )[a] by {
            assert forall|b: int| 0 <= b < Z implies #[trigger] rows_of_flat(out@, n, Z as nat)[a][b] == p[a
                + start][b] by {
                assert(out@[((a + start) - start) * Z + b] == p[a + start][b]);
            }
        }
        assert(rows_of_flat(out@, n, Z as nat) =~= p.subrange(start as int, end as int));
        out
    }
}

impl<const R: usize, const C: usize> Default for DynMatrics<R, C> {
    /// The matrix whose elements are all zero.
    fn default() -> (r: Self)
        ensures
            r.wf(),
            r@ == zeros(R as nat, C as nat),
    {
        let mut data: Vec<i64> = Vec::new();
        let mut i: usize = 0;
        while i < R
            invariant
                i <= R,
                data@.len() == i * C,
                forall|p: int| 0 <= p < data@.len() ==> data@[p] == 0,
            decreases R - i,
        {
            let mut j: usize = 0;
            while j < C
                invariant
                    i < R,
                    j <= C,
                    data@.len() == i * C + j,
                    forall|p: int| 0 <= p < data@.len() ==> data@[p] == 0,
                decreases C - j,
            {
                data.push(0);
                j = j + 1;
            }
            assert((i + 1) * C == i * C + C) by (nonlinear_arith);
            i = i + 1;
        }
        let r = DynMatrics { data };
        assert forall|a: int, b: int| 0 <= a < R && 0 <= b < C implies r@[a][b] == 0i64 by {
            lemma_flat_index(a, b, R as int, C as int);
        }
        assert(r@ =~= zeros(R as nat, C as nat)) by {
            assert forall|a: int| 0 <= a < R implies r@[a] =~= zeros(R as nat, C as nat)[a] by {}
        }
        r
    }
}

impl<const R: usize, const C: usize> TryFrom<Vec<i64>> for DynMatrics<R, C> {
    type Error = ();

    /// The matrix over `data` in row-major order; fails when `data` does not hold exactly
    /// `R * C` elements.
    fn try_from(data: Vec<i64>) -> (r: Result<Self, ()>) {
        match R.checked_mul(C) {
            Some(n) => {
                if data.len() == n {
                    Ok(DynMatrics { data })
                } else {
                    Err(())
                }
            },
            None => {
                assert(data.len() == data@.len());
                Err(())
            },
        }
    }
}

impl<const R: usize, const C: usize> DynMatrics<R, C> {
    /// Every row of the matrix has `C` elements and there are `R` rows.
    pub proof fn lemma_view_is_grid(&self)
        ensures
            is_grid(self@, R as nat, C as nat),
    {
    }

    /// The matrix over the flat blocks of `blocks` joined in order, read in row-major order;
    /// `None` when together they do not hold exactly `R * C` elements.
    pub fn from_row_blocks(blocks: Vec<Vec<i64>>) -> (r: Option<Self>)
        ensures
            r is Some <==> concat_blocks(flat_blocks(blocks@)).len() == R * C,
            r is Some ==> r->Some_0.wf() && r->Some_0@ == rows_of_flat(
                concat_blocks(flat_blocks(blocks@)),
                R as nat,
                C as nat,
            ),
    {
        let ghost all = flat_blocks(blocks@);
        let mut data: Vec<i64> = Vec::new();
        let mut c: usize = 0;
        while c < blocks.len()
            invariant
                c <= blocks@.len(),
                all == flat_blocks(blocks@),
                data@ == concat_blocks(all.subrange(0, c as int)),
            decreases blocks@.len() - c,
        {
            assert(all.subrange(0, c + 1).drop_last() =~= all.subrange(0, c as int));
            let block = &blocks[c];
            let mut t: usize = 0;
            while t < block.len()
                invariant
                    c < blocks@.len(),
                    block == blocks@[c as int],
                    all == flat_blocks(blocks@),
                    t <= block@.len(),
                    data@ == concat_blocks(all.subrange(0, c as int)) + block@.subrange(0, t as int),
                decreases block@.len() - t,
            {
                data.push(block[t]);
                assert(block@.subrange(0, t + 1) =~= block@.subrange(0, t as int).push(block@[t as int]));
                t = t + 1;
            }
            assert(block@.subrange(0, block@.len() as int) =~= block@);
            c = c + 1;
        }
        assert(all.subrange(0, blocks@.len() as int) =~= all);
        match R.checked_mul(C) {
            Some(n) => {
                if data.len() == n {
                    Some(DynMatrics { data })
                } else {
                    None
                }
            },
            None => {
                assert(data.len() == data@.len());
                None
            },
        }
    }

    /// Building from a flat buffer succeeds exactly when it holds `R * C` elements, and then
    /// reads the buffer in row-major order.
    pub proof fn lemma_try_from(data: Vec<i64>)
        ensures
            <Self as vstd::std_specs::convert::TryFromSpec<Vec<i64>>>::try_from_spec(data) is Ok
                <==> data@.len() == R * C,
            <Self as vstd::std_specs::convert::TryFromSpec<Vec<i64>>>::try_from_spec(data) is Ok
                ==> {
                let m = <Self as vstd::std_specs::convert::TryFromSpec<Vec<i64>>>::try_from_spec(data)->Ok_0;
                m.wf() && m@ == rows_of_flat(data@, R as nat, C as nat)
            },
    {
    }
}

impl<const R: usize, const C: usize> vstd::std_specs::convert::TryFromSpecImpl<Vec<i64>> for DynMatrics<R, C> {
    open spec fn obeys_try_from_spec() -> bool {
        true
    }

    closed spec fn try_from_spec(data: Vec<i64>) -> Result<Self, ()> {
        if data@.len() == R * C {
            Ok(DynMatrics { data })
        } else {
            Err(())
        }
    }
}

} // verus!
