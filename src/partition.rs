use vstd::prelude::*;

verus! {

/// The worker count actually used: zero workers count as one.
pub open spec fn effective_workers(workers: nat) -> nat {
    if workers == 0 {
        1
    } else {
        workers
    }
}

/// Rows per worker: `rows` divided by the worker count, rounded up.
pub open spec fn chunk_rows(rows: nat, workers: nat) -> nat {
    let w = effective_workers(workers);
    if rows % w == 0 {
        rows / w
    } else {
        rows / w + 1
    }
}

/// `plan` splits rows `0..rows` into consecutive, non-empty, non-overlapping half-open ranges
/// of `chunk_rows(rows, workers)` rows each (the last one may be shorter), one range per
/// worker, with no more ranges than workers or rows.
pub open spec fn is_row_partition(plan: Seq<(usize, usize)>, rows: nat, workers: nat) -> bool {
    let chunk = chunk_rows(rows, workers);
    &&& plan.len() <= effective_workers(workers)
    &&& plan.len() <= rows
    &&& (rows == 0 <==> plan.len() == 0)
    &&& plan.len() > 0 ==> plan[0].0 == 0 && plan.last().1 == rows
    &&& forall|c: int| 0 <= c < plan.len() ==> {
        &&& (#[trigger] plan[c]).0 == c * chunk
        &&& plan[c].1 == if (c + 1) * chunk < rows { (c + 1) * chunk } else { rows as int }
        &&& plan[c].0 < plan[c].1
    }
    &&& forall|c: int| 0 <= c < plan.len() - 1 ==> (#[trigger] plan[c]).1 == plan[c + 1].0
}

proof fn lemma_chunk_covers(rows: nat, workers: nat)
    ensures
        chunk_rows(rows, workers) * effective_workers(workers) >= rows,
        rows > 0 ==> chunk_rows(rows, workers) > 0,
{
    let w = effective_workers(workers);
    let q = rows / w;
    let m = rows % w;
    assert(rows == w * q + m && 0 <= m < w) by {
        vstd::arithmetic::div_mod::lemma_fundamental_div_mod(rows as int, w as int);
    }
    if m == 0 {
        assert(q * w >= rows) by (nonlinear_arith)
            requires
                rows == w * q + m,
                m == 0,
        ;
    } else {
        assert((q + 1) * w >= rows) by (nonlinear_arith)
            requires
                rows == w * q + m,
                m < w,
        ;
    }
}

/// Splits rows `0..rows` among at most `workers` workers (zero counts as one), as the
/// half-open ranges `(start, end)` that each worker computes.
pub fn partition_rows(rows: usize, workers: usize) -> (r: Vec<(usize, usize)>)
    ensures
        is_row_partition(r@, rows as nat, workers as nat),
{
    let w: usize = if workers == 0 {
        1
    } else {
        workers
    };
    let chunk: usize = if rows % w == 0 {
        rows / w
    } else {
        assert(rows > 0) by {
            if rows == 0 {
                assert(0usize % w == 0);
            }
        }
        assert(rows / w < rows) by (nonlinear_arith)
            requires
                w > 1,
                rows > 0,
        ;
        rows / w + 1
    };
    let ghost ch = chunk_rows(rows as nat, workers as nat);
    proof {
        lemma_chunk_covers(rows as nat, workers as nat);
    }
    let mut plan: Vec<(usize, usize)> = Vec::new();
    let mut start: usize = 0;
    assert(0 * ch == 0);
    while start < rows
        invariant
            chunk == ch,
            w == effective_workers(workers as nat),
            ch * w >= rows,
            rows > 0 ==> ch > 0,
            start <= rows,
            start < rows ==> start == plan@.len() * ch,
            plan@.len() <= w,
            plan@.len() <= start,
            plan@.len() == 0 ==> start == 0,
            plan@.len() > 0 ==> plan@[0].0 == 0 && plan@.last().1 == start,
            forall|c: int| 0 <= c < plan@.len() ==> {
                &&& (#[trigger] plan@[c]).0 == c * ch
                &&& plan@[c].1 == if (c + 1) * ch < rows { (c + 1) * ch } else { rows as int }
                &&& plan@[c].0 < plan@[c].1
            },
            forall|c: int| 0 <= c < plan@.len() - 1 ==> (#[trigger] plan@[c]).1 == plan@[c + 1].0,
        decreases rows - start,
    {
        let ghost n = plan@.len();
        let end: usize = if rows - start <= chunk {
            rows
        } else {
            start + chunk
        };
        assert(n < w) by (nonlinear_arith)
            requires
                start == n * ch,
                start < rows,
                ch * w >= rows,
        ;
        assert((n + 1) * ch == n * ch + ch) by (nonlinear_arith);
        plan.push((start, end));
        start = end;
    }
    assert(plan@.len() <= rows);
    plan
}

/// The blocks of `blocks` joined end to end, in order.
pub open spec fn concat_blocks<A>(blocks: Seq<Seq<A>>) -> Seq<A>
    decreases blocks.len(),
{
    if blocks.len() == 0 {
        Seq::empty()
    } else {
        concat_blocks(blocks.drop_last()) + blocks.last()
    }
}

/// Joining a prefix of the blocks gives no more than joining them all.
pub proof fn lemma_concat_prefix_len<A>(blocks: Seq<Seq<A>>, n: int)
    requires
        0 <= n <= blocks.len(),
    ensures
        concat_blocks(blocks.subrange(0, n)).len() <= concat_blocks(blocks).len(),
    decreases blocks.len(),
{
    if n < blocks.len() {
        assert(blocks.drop_last().subrange(0, n) =~= blocks.subrange(0, n));
        lemma_concat_prefix_len(blocks.drop_last(), n);
    } else {
        assert(blocks.subrange(0, n) =~= blocks);
    }
}

/// The pieces of `m` that the ranges of `plan` cut out, in order.
pub open spec fn cut<A>(m: Seq<A>, plan: Seq<(usize, usize)>) -> Seq<Seq<A>> {
    Seq::new(plan.len(), |c: int| m.subrange(plan[c].0 as int, plan[c].1 as int))
}

proof fn lemma_cut_prefix<A>(m: Seq<A>, plan: Seq<(usize, usize)>, workers: nat, n: int)
    requires
        is_row_partition(plan, m.len(), workers),
        0 < n <= plan.len(),
    ensures
        concat_blocks(cut(m, plan).subrange(0, n)) == m.subrange(0, plan[n - 1].1 as int),
    decreases n,
{
    let pieces = cut(m, plan).subrange(0, n);
    assert(pieces.drop_last() == cut(m, plan).subrange(0, n - 1));
    if n == 1 {
        assert(pieces.drop_last() =~= Seq::<Seq<A>>::empty());
        assert(concat_blocks(pieces.drop_last()) =~= Seq::<A>::empty());
        assert(plan[0].0 == 0);
        assert(concat_blocks(pieces) =~= m.subrange(0, plan[0].1 as int));
    } else {
        lemma_cut_prefix(m, plan, workers, n - 1);
        assert(plan[n - 2].1 == plan[n - 1].0);
        assert(concat_blocks(pieces) =~= m.subrange(0, plan[n - 1].1 as int));
    }
}

/// Whatever the worker count, cutting `m` (one entry per row) along the row partition and
/// joining the pieces back in order gives `m`: every row falls in exactly one worker's range.
pub proof fn lemma_partition_reassembles<A>(m: Seq<A>, plan: Seq<(usize, usize)>, workers: nat)
    requires
        is_row_partition(plan, m.len(), workers),
    ensures
        concat_blocks(cut(m, plan)) == m,
{
    if plan.len() == 0 {
        assert(m =~= Seq::<A>::empty());
        assert(concat_blocks(cut(m, plan)) =~= Seq::<A>::empty());
    } else {
        lemma_cut_prefix(m, plan, workers, plan.len() as int);
        assert(cut(m, plan).subrange(0, plan.len() as int) =~= cut(m, plan));
        assert(m.subrange(0, m.len() as int) =~= m);
    }
}

} // verus!
