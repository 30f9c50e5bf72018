use vstd::prelude::*;

verus! {

/// The integers that an `i64` can hold.
pub open spec fn fits_i64(v: int) -> bool {
    i64::MIN <= v <= i64::MAX
}

/// The sum of the first `k` products `a[i][t] * b[t][j]`, accumulated with `t` ascending.
pub open spec fn dot_prefix(a: Seq<Seq<i64>>, b: Seq<Seq<i64>>, i: int, j: int, k: nat) -> int
    decreases k,
{
    if k == 0 {
        0
    } else {
        dot_prefix(a, b, i, j, (k - 1) as nat) + a[i][k - 1] * b[k - 1][j]
    }
}

/// Every product and every partial sum met while computing the `x`-by-`z` product of
/// `a` (`x`-by-`y`) and `b` (`y`-by-`z`) lies in the range of `i64`.
pub open spec fn product_fits(a: Seq<Seq<i64>>, b: Seq<Seq<i64>>, x: nat, y: nat, z: nat) -> bool {
    &&& forall|i: int, j: int, k: int|
        0 <= i < x && 0 <= j < z && 0 <= k < y ==> fits_i64(#[trigger] (a[i][k] * b[k][j]))
    &&& forall|i: int, j: int, k: int|
        0 <= i < x && 0 <= j < z && 0 <= k < y ==> fits_i64(
            #[trigger] dot_prefix(a, b, i, j, (k + 1) as nat),
        )
}

/// No product and no partial sum met while computing element `(i, j)` of the product leaves
/// the range of `i64`.
pub open spec fn entry_fits(a: Seq<Seq<i64>>, b: Seq<Seq<i64>>, i: int, j: int, y: nat) -> bool {
    forall|k: int|
        0 <= k < y ==> fits_i64(#[trigger] (a[i][k] * b[k][j])) && fits_i64(
            dot_prefix(a, b, i, j, (k + 1) as nat),
        )
}

/// The whole product stays in range exactly when each of its elements does.
pub proof fn lemma_product_fits_by_entries(a: Seq<Seq<i64>>, b: Seq<Seq<i64>>, x: nat, y: nat, z: nat)
    ensures
        product_fits(a, b, x, y, z) <==> forall|i: int, j: int|
            0 <= i < x && 0 <= j < z ==> #[trigger] entry_fits(a, b, i, j, y),
{
    if forall|i: int, j: int| 0 <= i < x && 0 <= j < z ==> #[trigger] entry_fits(a, b, i, j, y) {
        assert forall|i: int, j: int, k: int| 0 <= i < x && 0 <= j < z && 0 <= k < y implies fits_i64(
            #[trigger] dot_prefix(a, b, i, j, (k + 1) as nat),
        ) by {
            assert(entry_fits(a, b, i, j, y));
            assert(fits_i64(a[i][k] * b[k][j]));
        }
        assert forall|i: int, j: int, k: int| 0 <= i < x && 0 <= j < z && 0 <= k < y implies fits_i64(
            #[trigger] (a[i][k] * b[k][j]),
        ) by {
            assert(entry_fits(a, b, i, j, y));
        }
    }
    if product_fits(a, b, x, y, z) {
        assert forall|i: int, j: int| 0 <= i < x && 0 <= j < z implies #[trigger] entry_fits(
            a,
            b,
            i,
            j,
            y,
        ) by {
            assert forall|k: int| 0 <= k < y implies fits_i64(#[trigger] (a[i][k] * b[k][j])) && fits_i64(
                dot_prefix(a, b, i, j, (k + 1) as nat),
            ) by {
                assert(fits_i64(dot_prefix(a, b, i, j, (k + 1) as nat)));
            }
        }
    }
}

/// The `x`-by-`z` product of `a` and `b` over an inner dimension `y`, row by row.
pub open spec fn product(a: Seq<Seq<i64>>, b: Seq<Seq<i64>>, x: nat, y: nat, z: nat) -> Seq<
    Seq<i64>,
> {
    Seq::new(x, |i: int| Seq::new(z, |j: int| dot_prefix(a, b, i, j, y) as i64))
}

/// A grid of `r` rows of `c` elements each.
pub open spec fn is_grid(m: Seq<Seq<i64>>, r: nat, c: nat) -> bool {
    &&& m.len() == r
    &&& forall|i: int| 0 <= i < r ==> (#[trigger] m[i]).len() == c
}

/// The `r`-by-`c` grid of zeros.
pub open spec fn zeros(r: nat, c: nat) -> Seq<Seq<i64>> {
    Seq::new(r, |i: int| Seq::new(c, |j: int| 0i64))
}

} // verus!
