use vstd::prelude::*;

use crate::model::{dot_prefix, fits_i64, is_grid, product, product_fits, zeros};
use crate::dynamic::rows_of_flat;
use crate::partition::{concat_blocks, cut, is_row_partition, lemma_partition_reassembles};

verus! {

/// The `n`-by-`n` identity: ones on the diagonal, zeros elsewhere.
pub open spec fn is_identity(m: Seq<Seq<i64>>, n: nat) -> bool {
    &&& is_grid(m, n, n)
    &&& forall|i: int, j: int| 0 <= i < n && 0 <= j < n ==> #[trigger] m[i][j] == if i == j {
        1i64
    } else {
        0i64
    }
}

/// Every element of the `r`-by-`c` grid `m` is zero.
pub open spec fn is_zero(m: Seq<Seq<i64>>, r: nat, c: nat) -> bool {
    &&& is_grid(m, r, c)
    &&& forall|i: int, j: int| 0 <= i < r && 0 <= j < c ==> #[trigger] m[i][j] == 0
}

proof fn lemma_prefix_right_identity(a: Seq<Seq<i64>>, id: Seq<Seq<i64>>, n: nat, i: int, j: int, k: nat)
    requires
        is_identity(id, n),
        0 <= j < n,
        k <= n,
    ensures
        dot_prefix(a, id, i, j, k) == if j < k { a[i][j] as int } else { 0 },
    decreases k,
{
    if k > 0 {
        lemma_prefix_right_identity(a, id, n, i, j, (k - 1) as nat);
        assert(id[k - 1][j] == if k - 1 == j { 1i64 } else { 0i64 });
    }
}

proof fn lemma_prefix_left_identity(id: Seq<Seq<i64>>, b: Seq<Seq<i64>>, n: nat, i: int, j: int, k: nat)
    requires
        is_identity(id, n),
        0 <= i < n,
        k <= n,
    ensures
        dot_prefix(id, b, i, j, k) == if i < k { b[i][j] as int } else { 0 },
    decreases k,
{
    if k > 0 {
        lemma_prefix_left_identity(id, b, n, i, j, (k - 1) as nat);
        assert(id[i][k - 1] == if i == k - 1 { 1i64 } else { 0i64 });
    }
}

/// Multiplying an `x`-by-`y` matrix on the right by the `y`-by-`y` identity cannot overflow
/// and gives back the matrix unchanged.
pub proof fn lemma_identity_right(a: Seq<Seq<i64>>, id: Seq<Seq<i64>>, x: nat, y: nat)
    requires
        is_grid(a, x, y),
        is_identity(id, y),
    ensures
        product_fits(a, id, x, y, y),
        product(a, id, x, y, y) == a,
{
    assert forall|i: int, j: int, k: int| 0 <= i < x && 0 <= j < y && 0 <= k < y implies fits_i64(
        #[trigger] dot_prefix(a, id, i, j, (k + 1) as nat),
    ) by {
        lemma_prefix_right_identity(a, id, y, i, j, (k + 1) as nat);
    }
    assert forall|i: int, j: int, k: int| 0 <= i < x && 0 <= j < y && 0 <= k < y implies fits_i64(
        #[trigger] (a[i][k] * id[k][j]),
    ) by {
        assert(id[k][j] == 0 || id[k][j] == 1);
    }
    let p = product(a, id, x, y, y);
    assert forall|i: int| 0 <= i < x implies p[i] =~= a[i] by {
        assert forall|j: int| 0 <= j < y implies p[i][j] == a[i][j] by {
            lemma_prefix_right_identity(a, id, y, i, j, y);
        }
    }
    assert(p =~= a);
}

/// Multiplying a `y`-by-`z` matrix on the left by the `y`-by-`y` identity cannot overflow
/// and gives back the matrix unchanged.
pub proof fn lemma_identity_left(id: Seq<Seq<i64>>, b: Seq<Seq<i64>>, y: nat, z: nat)
    requires
        is_identity(id, y),
        is_grid(b, y, z),
    ensures
        product_fits(id, b, y, y, z),
        product(id, b, y, y, z) == b,
{
    assert forall|i: int, j: int, k: int| 0 <= i < y && 0 <= j < z && 0 <= k < y implies fits_i64(
        #[trigger] dot_prefix(id, b, i, j, (k + 1) as nat),
    ) by {
        lemma_prefix_left_identity(id, b, y, i, j, (k + 1) as nat);
    }
    assert forall|i: int, j: int, k: int| 0 <= i < y && 0 <= j < z && 0 <= k < y implies fits_i64(
        #[trigger] (id[i][k] * b[k][j]),
    ) by {
        assert(id[i][k] == 0 || id[i][k] == 1);
    }
    let p = product(id, b, y, y, z);
    assert forall|i: int| 0 <= i < y implies p[i] =~= b[i] by {
        assert forall|j: int| 0 <= j < z implies p[i][j] == b[i][j] by {
            lemma_prefix_left_identity(id, b, y, i, j, y);
        }
    }
    assert(p =~= b);
}

proof fn lemma_prefix_zero(a: Seq<Seq<i64>>, b: Seq<Seq<i64>>, i: int, j: int, k: nat)
    requires
        forall|t: int| 0 <= t < k ==> #[trigger] (a[i][t] * b[t][j]) == 0,
    ensures
        dot_prefix(a, b, i, j, k) == 0,
    decreases k,
{
    if k > 0 {
        lemma_prefix_zero(a, b, i, j, (k - 1) as nat);
        assert(a[i][k - 1] * b[k - 1][j] == 0);
    }
}

/// Multiplying by a zero matrix on either side, with `a` of `x`-by-`y` and `b` of
/// `y`-by-`z`, cannot overflow and gives the `x`-by-`z` zero matrix.
pub proof fn lemma_zero_absorbs(a: Seq<Seq<i64>>, b: Seq<Seq<i64>>, x: nat, y: nat, z: nat)
    requires
        is_grid(a, x, y),
        is_grid(b, y, z),
        is_zero(a, x, y) || is_zero(b, y, z),
    ensures
        product_fits(a, b, x, y, z),
        product(a, b, x, y, z) == zeros(x, z),
{
    assert forall|i: int, j: int, k: int| 0 <= i < x && 0 <= j < z && 0 <= k < y implies #[trigger] (
    a[i][k] * b[k][j]) == 0 by {
        if is_zero(a, x, y) {
            assert(a[i][k] == 0);
        } else {
            assert(b[k][j] == 0);
        }
    }
    assert forall|i: int, j: int, k: int| 0 <= i < x && 0 <= j < z && 0 <= k <= y implies #[trigger] dot_prefix(
        a,
        b,
        i,
        j,
        k as nat,
    ) == 0 by {
        assert forall|t: int| 0 <= t < k implies #[trigger] (a[i][t] * b[t][j]) == 0 by {}
        lemma_prefix_zero(a, b, i, j, k as nat);
    }
    assert forall|i: int, j: int, k: int| 0 <= i < x && 0 <= j < z && 0 <= k < y implies fits_i64(
        #[trigger] dot_prefix(a, b, i, j, (k + 1) as nat),
    ) by {
        assert(dot_prefix(a, b, i, j, (k + 1) as nat) == 0);
    }
    let p = product(a, b, x, y, z);
    assert forall|i: int| 0 <= i < x implies p[i] =~= zeros(x, z)[i] by {
        assert forall|j: int| 0 <= j < z implies p[i][j] == 0 by {
            assert forall|t: int| 0 <= t < y implies #[trigger] (a[i][t] * b[t][j]) == 0 by {}
            lemma_prefix_zero(a, b, i, j, y);
        }
    }
    assert(p =~= zeros(x, z));
}

/// The parallel product equals the sequential one: for every worker count, when each
/// worker's block holds the rows of the product over its range of the row partition,
/// joining the blocks in order gives the whole `x`-by-`z` product.
pub proof fn lemma_blocks_give_product(
    a: Seq<Seq<i64>>,
    b: Seq<Seq<i64>>,
    x: nat,
    y: nat,
    z: nat,
    workers: nat,
    plan: Seq<(usize, usize)>,
    blocks: Seq<Seq<Seq<i64>>>,
)
    requires
        is_row_partition(plan, x, workers),
        blocks.len() == plan.len(),
        forall|c: int|
            0 <= c < plan.len() ==> #[trigger] blocks[c] == product(a, b, x, y, z).subrange(
                plan[c].0 as int,
                plan[c].1 as int,
            ),
    ensures
        concat_blocks(blocks) == product(a, b, x, y, z),
{
    let p = product(a, b, x, y, z);
    assert(blocks =~= cut(p, plan));
    lemma_partition_reassembles(p, plan, workers);
}

proof fn lemma_rows_of_flat_append(s1: Seq<i64>, s2: Seq<i64>, r1: nat, r2: nat, z: nat)
    requires
        s1.len() == r1 * z,
        s2.len() == r2 * z,
    ensures
        (s1 + s2).len() == (r1 + r2) * z,
        rows_of_flat(s1 + s2, r1 + r2, z) == rows_of_flat(s1, r1, z) + rows_of_flat(s2, r2, z),
{
    assert((r1 + r2) * z == r1 * z + r2 * z) by (nonlinear_arith);
    let whole = rows_of_flat(s1 + s2, r1 + r2, z);
    let parts = rows_of_flat(s1, r1, z) + rows_of_flat(s2, r2, z);
    assert forall|i: int| 0 <= i < r1 + r2 implies whole[i] =~= parts[i] by {
        assert forall|j: int| 0 <= j < z implies whole[i][j] == parts[i][j] by {
            if i < r1 {
                assert(0 <= i * z + j < r1 * z) by (nonlinear_arith)
                    requires
                        0 <= i < r1,
                        0 <= j < z,
                ;
            } else {
                assert(i * z + j - r1 * z == (i - r1) * z + j) by (nonlinear_arith);
                assert(0 <= (i - r1) * z + j < r2 * z) by (nonlinear_arith)
                    requires
                        0 <= i - r1 < r2,
                        0 <= j < z,
                ;
            }
        }
    }
    assert(whole =~= parts);
}

proof fn lemma_flat_prefix(p: Seq<Seq<i64>>, z: nat, plan: Seq<(usize, usize)>, workers: nat, blocks: Seq<
    Seq<i64>,
>, n: int)
    requires
        is_row_partition(plan, p.len(), workers),
        blocks.len() == plan.len(),
        forall|c: int|
            0 <= c < plan.len() ==> (#[trigger] blocks[c]).len() == (plan[c].1 - plan[c].0) * z
                && rows_of_flat(blocks[c], (plan[c].1 - plan[c].0) as nat, z) == p.subrange(
                plan[c].0 as int,
                plan[c].1 as int,
            ),
        0 < n <= plan.len(),
    ensures
        concat_blocks(blocks.subrange(0, n)).len() == plan[n - 1].1 * z,
        rows_of_flat(concat_blocks(blocks.subrange(0, n)), plan[n - 1].1 as nat, z) == p.subrange(
            0,
            plan[n - 1].1 as int,
        ),
    decreases n,
{
    let pre = blocks.subrange(0, n);
    assert(pre.drop_last() =~= blocks.subrange(0, n - 1));
    let b = blocks[n - 1];
    let cnt = (plan[n - 1].1 - plan[n - 1].0) as nat;
    if n == 1 {
        assert(pre.drop_last() =~= Seq::<Seq<i64>>::empty());
        assert(concat_blocks(pre.drop_last()) =~= Seq::<i64>::empty());
        assert(concat_blocks(pre) =~= b);
    } else {
        lemma_flat_prefix(p, z, plan, workers, blocks, n - 1);
        let head = concat_blocks(pre.drop_last());
        let r1 = plan[n - 2].1 as nat;
        assert(plan[n - 2].1 == plan[n - 1].0);
        lemma_rows_of_flat_append(head, b, r1, cnt, z);
        assert(r1 + cnt == plan[n - 1].1);
        assert(p.subrange(0, r1 as int) + p.subrange(r1 as int, plan[n - 1].1 as int) =~= p.subrange(
            0,
            plan[n - 1].1 as int,
        ));
    }
}

/// The parallel product of flat matrices equals the sequential one: for every worker count,
/// when each worker's flat block holds, row after row, the rows of the product over its
/// range of the row partition, joining the blocks in order gives the whole `x`-by-`z`
/// product in row-major order.
pub proof fn lemma_flat_blocks_give_product(
    a: Seq<Seq<i64>>,
    b: Seq<Seq<i64>>,
    x: nat,
    y: nat,
    z: nat,
    workers: nat,
    plan: Seq<(usize, usize)>,
    blocks: Seq<Seq<i64>>,
)
    requires
        is_row_partition(plan, x, workers),
        blocks.len() == plan.len(),
        forall|c: int|
            0 <= c < plan.len() ==> (#[trigger] blocks[c]).len() == (plan[c].1 - plan[c].0) * z
                && rows_of_flat(blocks[c], (plan[c].1 - plan[c].0) as nat, z) == product(
                a,
                b,
                x,
                y,
                z,
            ).subrange(plan[c].0 as int, plan[c].1 as int),
    ensures
        concat_blocks(blocks).len() == x * z,
        rows_of_flat(concat_blocks(blocks), x, z) == product(a, b, x, y, z),
{
    let p = product(a, b, x, y, z);
    if plan.len() == 0 {
        assert(concat_blocks(blocks) =~= Seq::<i64>::empty());
        assert(rows_of_flat(concat_blocks(blocks), x, z) =~= p);
    } else {
        lemma_flat_prefix(p, z, plan, workers, blocks, plan.len() as int);
        assert(blocks.subrange(0, plan.len() as int) =~= blocks);
        assert(p.subrange(0, x as int) =~= p);
    }
}

} // verus!
