//! The pairwise general contractor: contracts chosen axis pairs of two
//! tensors, keeping all remaining axes — the tensor dot product. The output
//! carries the uncontracted left axes in order, then the uncontracted right
//! axes in order.
use vstd::prelude::*;
use crate::indexing::{
    checked_prod, in_bounds, index_of_flat, lemma_flat_index_bounds, lemma_flat_unflatten,
    lemma_prod_all_nonneg, prod_all, to_ints, unflatten,
};
use crate::semantics::{wadd, wmul};
use crate::tensor::{EinsumError, Tensor, TensorModel};

verus! {

/// No axis number occurs twice.
pub open spec fn distinct_ints(s: Seq<int>) -> bool {
    forall|i: int, j: int| 0 <= i < j < s.len() ==> #[trigger] s[i] != #[trigger] s[j]
}

/// The position of `x` in `s`; meaningful when `s` holds `x` exactly once.
pub open spec fn posof(s: Seq<int>, x: int) -> int {
    choose|j: int| 0 <= j < s.len() && s[j] == x
}

pub proof fn lemma_posof_unique(s: Seq<int>, x: int, i: int)
    requires
        distinct_ints(s),
        0 <= i < s.len(),
        s[i] == x,
    ensures
        posof(s, x) == i,
{
    assert(0 <= posof(s, x) < s.len() && s[posof(s, x)] == x);
}

/// The axes below `rank` that are not in `taken`, in ascending order.
pub open spec fn free_axes(rank: int, taken: Seq<int>) -> Seq<int>
    decreases rank,
{
    if rank <= 0 {
        Seq::empty()
    } else if taken.contains(rank - 1) {
        free_axes(rank - 1, taken)
    } else {
        free_axes(rank - 1, taken).push(rank - 1)
    }
}

pub proof fn lemma_free_axes_facts(rank: int, taken: Seq<int>)
    ensures
        forall|e: int|
            #[trigger] free_axes(rank, taken).contains(e) <==> (0 <= e < rank && !taken.contains(
                e,
            )),
        distinct_ints(free_axes(rank, taken)),
    decreases rank,
{
    if rank > 0 {
        lemma_free_axes_facts(rank - 1, taken);
        let prev = free_axes(rank - 1, taken);
        let cur = free_axes(rank, taken);
        if !taken.contains(rank - 1) {
            assert forall|e: int| #[trigger] cur.contains(e) implies (0 <= e < rank
                && !taken.contains(e)) by {
                let i = choose|i: int| 0 <= i < cur.len() && cur[i] == e;
                if i < prev.len() {
                    assert(prev.contains(e));
                }
            }
            assert forall|e: int| (0 <= e < rank && !taken.contains(e)) implies
                #[trigger] cur.contains(e) by {
                if e < rank - 1 {
                    assert(prev.contains(e));
                    let i = choose|i: int| 0 <= i < prev.len() && prev[i] == e;
                    assert(cur[i] == e);
                } else {
                    assert(cur[cur.len() - 1] == e);
                }
            }
            assert forall|i: int, j: int| 0 <= i < j < cur.len() implies #[trigger] cur[i] != (
            #[trigger] cur[j]) by {
                if j == cur.len() - 1 {
                    assert(prev.contains(cur[i]));
                }
            }
        } else {
            assert forall|e: int| #[trigger] cur.contains(e) implies (0 <= e < rank
                && !taken.contains(e)) by {
            }
            assert forall|e: int| (0 <= e < rank && !taken.contains(e)) implies
                #[trigger] cur.contains(e) by {
                assert(e != rank - 1);
            }
        }
    }
}

/// The extents of `shape` at the listed axes.
pub open spec fn gather(shape: Seq<int>, axes: Seq<int>) -> Seq<int> {
    Seq::new(axes.len(), |j: int| shape[axes[j]])
}

/// The axis lists describe a contraction of `lshape` with `rshape`: equal
/// counts, in range, no repeats, and pairwise equal extents.
pub open spec fn valid_axes(lshape: Seq<int>, rshape: Seq<int>, lax: Seq<int>, rax: Seq<int>) -> bool {
    &&& lax.len() == rax.len()
    &&& forall|j: int| 0 <= j < lax.len() ==> 0 <= #[trigger] lax[j] < lshape.len()
    &&& forall|j: int| 0 <= j < rax.len() ==> 0 <= #[trigger] rax[j] < rshape.len()
    &&& distinct_ints(lax)
    &&& distinct_ints(rax)
    &&& forall|j: int| 0 <= j < lax.len() ==> lshape[#[trigger] lax[j]] == rshape[rax[j]]
}

/// Where an operand is read: contracted axes take the summed assignment `q`,
/// free axes take their slice of the output assignment `o`, which starts at
/// `offset` (zero for the left operand, the number of free left axes for the
/// right one).
pub open spec fn point_for(
    shape: Seq<int>,
    taken: Seq<int>,
    offset: int,
    o: Seq<int>,
    q: Seq<int>,
) -> Seq<int> {
    Seq::new(
        shape.len(),
        |ax: int|
            if taken.contains(ax) {
                q[posof(taken, ax)]
            } else {
                o[offset + posof(free_axes(shape.len() as int, taken), ax)]
            },
    )
}

/// Sum over the first `m` assignments of the contracted axes of the product
/// of the two operands' elements.
pub open spec fn pair_sum(
    a: TensorModel,
    b: TensorModel,
    lax: Seq<int>,
    rax: Seq<int>,
    o: Seq<int>,
    m: int,
) -> i64
    decreases m,
{
    if m <= 0 {
        0i64
    } else {
        let q = unflatten(m - 1, gather(a.shape, lax));
        wadd(
            pair_sum(a, b, lax, rax, o, m - 1),
            wmul(
                a.at(point_for(a.shape, lax, 0, o, q)),
                b.at(
                    point_for(
                        b.shape,
                        rax,
                        free_axes(a.shape.len() as int, lax).len() as int,
                        o,
                        q,
                    ),
                ),
            ),
        )
    }
}

/// Every coordinate of an operand's read point is within its extents.
pub proof fn lemma_point_in_bounds(
    sh: Seq<int>,
    taken: Seq<int>,
    offset: int,
    o: Seq<int>,
    q: Seq<int>,
    osv: Seq<int>,
)
    requires
        distinct_ints(taken),
        forall|j: int| 0 <= j < taken.len() ==> 0 <= #[trigger] taken[j] < sh.len(),
        in_bounds(q, gather(sh, taken)),
        in_bounds(o, osv),
        offset >= 0,
        offset + free_axes(sh.len() as int, taken).len() <= o.len(),
        forall|i: int|
            0 <= i < free_axes(sh.len() as int, taken).len() ==> osv[offset + i] == #[trigger] gather(
                sh,
                free_axes(sh.len() as int, taken),
            )[i],
    ensures
        in_bounds(point_for(sh, taken, offset, o, q), sh),
{
    let fr = free_axes(sh.len() as int, taken);
    lemma_free_axes_facts(sh.len() as int, taken);
    let pt = point_for(sh, taken, offset, o, q);
    assert forall|ax: int| 0 <= ax < pt.len() implies 0 <= #[trigger] pt[ax] && pt[ax] < sh[ax] by {
        if taken.contains(ax) {
            let i = posof(taken, ax);
            assert(0 <= i < taken.len() && taken[i] == ax);
            assert(q[i] < gather(sh, taken)[i]);
        } else {
            assert(fr.contains(ax));
            let i = posof(fr, ax);
            assert(0 <= i < fr.len() && fr[i] == ax);
            assert(o[offset + i] < osv[offset + i]);
            assert(gather(sh, fr)[i] == sh[ax]);
        }
    }
}

/// The shape of the tensor dot product.
pub open spec fn tensordot_shape(a: TensorModel, b: TensorModel, lax: Seq<int>, rax: Seq<int>) -> Seq<int> {
    gather(a.shape, free_axes(a.shape.len() as int, lax)) + gather(
        b.shape,
        free_axes(b.shape.len() as int, rax),
    )
}

/// The tensor dot product, cell by cell.
pub open spec fn tensordot_model(a: TensorModel, b: TensorModel, lax: Seq<int>, rax: Seq<int>) -> TensorModel {
    let oshape = tensordot_shape(a, b, lax, rax);
    TensorModel {
        shape: oshape,
        data: Seq::new(
            prod_all(oshape) as nat,
            |p: int|
                pair_sum(
                    a,
                    b,
                    lax,
                    rax,
                    unflatten(p, oshape),
                    prod_all(gather(a.shape, lax)),
                ),
        ),
    }
}

/// The result sizes are representable.
pub open spec fn tensordot_fits(a: TensorModel, b: TensorModel, lax: Seq<int>, rax: Seq<int>) -> bool {
    &&& prod_all(tensordot_shape(a, b, lax, rax)) <= usize::MAX
    &&& prod_all(gather(a.shape, lax)) <= usize::MAX
}

/// The position of `x` in `v`, searching from the front.
fn position_of_axis(v: &Vec<usize>, x: usize) -> (r: Option<usize>)
    ensures
        match r {
            Some(i) => (i as int) < v@.len() && v@[i as int] == x,
            None => !to_ints(v@).contains(x as int),
        },
{
    let n = v.len();
    let mut i: usize = 0;
    while i < n
        invariant
            i <= n,
            n == v@.len(),
            forall|j: int| 0 <= j < i ==> v@[j] != x,
        decreases n - i,
    {
        if v[i] == x {
            return Some(i);
        }
        i += 1;
    }
    proof {
        assert forall|j: int| 0 <= j < to_ints(v@).len() implies to_ints(v@)[j] != x as int by {
            assert(v@[j] != x);
        }
    }
    None
}

/// The axes of `0..rank` not listed in `taken`, ascending.
fn free_axes_exec(rank: usize, taken: &Vec<usize>) -> (r: Vec<usize>)
    ensures
        to_ints(r@) == free_axes(rank as int, to_ints(taken@)),
{
    let ghost tv = to_ints(taken@);
    let mut r: Vec<usize> = Vec::new();
    let mut ax: usize = 0;
    while ax < rank
        invariant
            ax <= rank,
            tv == to_ints(taken@),
            to_ints(r@) == free_axes(ax as int, tv),
        decreases rank - ax,
    {
        match position_of_axis(taken, ax) {
            Some(i) => {
                proof {
                    assert(tv[i as int] == ax as int);
                    assert(tv.contains(ax as int));
                }
            },
            None => {
                let ghost prev = r@;
                r.push(ax);
                proof {
                    assert(to_ints(r@) =~= to_ints(prev).push(ax as int));
                }
            },
        }
        ax += 1;
    }
    r
}

/// Assembles the multi-index at which one operand is read, from the output
/// assignment `oidx` (whose slice for this operand starts at `offset`) and
/// the contracted-axes assignment `qidx`.
fn build_point(
    oidx: &Vec<usize>,
    qidx: &Vec<usize>,
    axes: &Vec<usize>,
    free: &Vec<usize>,
    rank: usize,
    offset: usize,
) -> (r: Vec<usize>)
    requires
        distinct_ints(to_ints(axes@)),
        to_ints(free@) == free_axes(rank as int, to_ints(axes@)),
        qidx@.len() == axes@.len(),
        offset + free@.len() <= oidx@.len(),
    ensures
        r@.len() == rank,
        forall|ax: int|
            0 <= ax < rank ==> #[trigger] r@[ax] as int == (if to_ints(axes@).contains(ax) {
                to_ints(qidx@)[posof(to_ints(axes@), ax)]
            } else {
                to_ints(oidx@)[offset + posof(free_axes(rank as int, to_ints(axes@)), ax)]
            }),
{
    let ghost av = to_ints(axes@);
    let ghost fv = free_axes(rank as int, av);
    let on = oidx.len();
    let mut r: Vec<usize> = Vec::new();
    let mut ax: usize = 0;
    while ax < rank
        invariant
            ax <= rank,
            on == oidx@.len(),
            av == to_ints(axes@),
            fv == free_axes(rank as int, av),
            to_ints(free@) == fv,
            distinct_ints(av),
            qidx@.len() == axes@.len(),
            offset + free@.len() <= oidx@.len(),
            r@.len() == ax,
            forall|a: int|
                0 <= a < ax ==> #[trigger] r@[a] as int == if av.contains(a) {
                    to_ints(qidx@)[posof(av, a)]
                } else {
                    to_ints(oidx@)[offset + posof(fv, a)]
                },
        decreases rank - ax,
    {
        proof {
            lemma_free_axes_facts(rank as int, av);
        }
        match position_of_axis(axes, ax) {
            Some(i) => {
                proof {
                    assert(av[i as int] == ax as int);
                    lemma_posof_unique(av, ax as int, i as int);
                    assert(av.contains(ax as int));
                }
                r.push(qidx[i]);
            },
            None => {
                proof {
                    assert(fv.contains(ax as int));
                }
                match position_of_axis(free, ax) {
                    Some(fi) => {
                        proof {
                            assert(fv[fi as int] == ax as int);
                            lemma_free_axes_facts(rank as int, av);
                            lemma_posof_unique(fv, ax as int, fi as int);
                            assert(fi < free@.len());
                        }
                        r.push(oidx[offset + fi]);
                    },
                    None => {
                        proof {
                            let w = choose|w: int| 0 <= w < fv.len() && fv[w] == ax as int;
                            assert(free@[w] == ax);
                            assert(false);
                        }
                    },
                }
            },
        }
        ax += 1;
    }
    r
}

/// Checks the caller-supplied axis lists against the operands' shapes.
fn axes_are_valid(lhs: &Tensor, rhs: &Tensor, lhs_axes: &Vec<usize>, rhs_axes: &Vec<usize>) -> (r:
    bool)
    ensures
        r == valid_axes(lhs@.shape, rhs@.shape, to_ints(lhs_axes@), to_ints(rhs_axes@)),
{
    let ghost lsh = lhs@.shape;
    let ghost rsh = rhs@.shape;
    let ghost lax = to_ints(lhs_axes@);
    let ghost rax = to_ints(rhs_axes@);
    let k = lhs_axes.len();
    if rhs_axes.len() != k {
        return false;
    }
    let lrank = lhs.rank();
    let rrank = rhs.rank();
    let lshape = lhs.shape_vec();
    let rshape = rhs.shape_vec();
    let mut j: usize = 0;
    while j < k
        invariant
            j <= k,
            k == lax.len(),
            k == rax.len(),
            lax == to_ints(lhs_axes@),
            rax == to_ints(rhs_axes@),
            lsh == lhs@.shape,
            rsh == rhs@.shape,
            lrank as int == lsh.len(),
            rrank as int == rsh.len(),
            to_ints(lshape@) == lsh,
            to_ints(rshape@) == rsh,
            forall|i: int| 0 <= i < j ==> 0 <= #[trigger] lax[i] < lsh.len(),
            forall|i: int| 0 <= i < j ==> 0 <= #[trigger] rax[i] < rsh.len(),
            forall|i: int| 0 <= i < j ==> lsh[#[trigger] lax[i]] == rsh[rax[i]],
            forall|i1: int, i2: int| 0 <= i1 < i2 < j ==> #[trigger] lax[i1] != #[trigger] lax[i2],
            forall|i1: int, i2: int| 0 <= i1 < i2 < j ==> #[trigger] rax[i1] != #[trigger] rax[i2],
        decreases k - j,
    {
        let la = lhs_axes[j];
        let ra = rhs_axes[j];
        if la >= lrank || ra >= rrank {
            proof {
                assert(lax[j as int] == la as int && rax[j as int] == ra as int);
            }
            return false;
        }
        if lshape[la] != rshape[ra] {
            proof {
                assert(lax[j as int] == la as int && rax[j as int] == ra as int);
                assert(lsh[la as int] != rsh[ra as int]);
            }
            return false;
        }
        let mut i: usize = 0;
        while i < j
            invariant
                i <= j,
                j < k,
                k == lhs_axes@.len(),
                k == rhs_axes@.len(),
                lax == to_ints(lhs_axes@),
                rax == to_ints(rhs_axes@),
                la == lhs_axes@[j as int],
                ra == rhs_axes@[j as int],
                forall|i2: int| 0 <= i2 < i ==> #[trigger] lax[i2] != la as int,
                forall|i2: int| 0 <= i2 < i ==> #[trigger] rax[i2] != ra as int,
            decreases j - i,
        {
            if lhs_axes[i] == la {
                proof {
                    assert(lax[i as int] == #[trigger] lax[j as int]);
                }
                return false;
            }
            if rhs_axes[i] == ra {
                proof {
                    assert(rax[i as int] == #[trigger] rax[j as int]);
                }
                return false;
            }
            i += 1;
        }
        j += 1;
    }
    proof {
        assert(valid_axes(lsh, rsh, lax, rax));
    }
    true
}

/// Tensor dot product of `lhs` and `rhs` over the listed axis pairs. Axis
/// lists that do not match the operands' ranks or extents are rejected, as is
/// a result too large for this machine.
pub fn tensordot(lhs: &Tensor, rhs: &Tensor, lhs_axes: &Vec<usize>, rhs_axes: &Vec<usize>) -> (r:
    Result<Tensor, EinsumError>)
    requires
        lhs@.wf(),
        rhs@.wf(),
    ensures
        match r {
            Ok(t) => {
                &&& valid_axes(lhs@.shape, rhs@.shape, to_ints(lhs_axes@), to_ints(rhs_axes@))
                &&& tensordot_fits(lhs@, rhs@, to_ints(lhs_axes@), to_ints(rhs_axes@))
                &&& t@ == tensordot_model(lhs@, rhs@, to_ints(lhs_axes@), to_ints(rhs_axes@))
                &&& t@.wf()
            },
            Err(e) => {
                ||| (e == EinsumError::InvalidAxes && !valid_axes(
                    lhs@.shape,
                    rhs@.shape,
                    to_ints(lhs_axes@),
                    to_ints(rhs_axes@),
                ))
                ||| (e == EinsumError::OutputTooLarge && valid_axes(
                    lhs@.shape,
                    rhs@.shape,
                    to_ints(lhs_axes@),
                    to_ints(rhs_axes@),
                ) && !tensordot_fits(lhs@, rhs@, to_ints(lhs_axes@), to_ints(rhs_axes@)))
            },
        },
{
    let ghost lsh = lhs@.shape;
    let ghost rsh = rhs@.shape;
    let ghost lax = to_ints(lhs_axes@);
    let ghost rax = to_ints(rhs_axes@);
    if !axes_are_valid(lhs, rhs, lhs_axes, rhs_axes) {
        return Err(EinsumError::InvalidAxes);
    }
    let lrank = lhs.rank();
    let rrank = rhs.rank();
    let lshape = lhs.shape_vec();
    let rshape = rhs.shape_vec();
    let lfree = free_axes_exec(lrank, lhs_axes);
    let rfree = free_axes_exec(rrank, rhs_axes);
    let ghost lfv = free_axes(lsh.len() as int, lax);
    let ghost rfv = free_axes(rsh.len() as int, rax);
    proof {
        lemma_free_axes_facts(lsh.len() as int, lax);
        lemma_free_axes_facts(rsh.len() as int, rax);
        assert forall|j: int| 0 <= j < lfv.len() implies 0 <= #[trigger] lfv[j] < lsh.len() by {
            assert(lfv.contains(lfv[j]));
        }
        assert forall|j: int| 0 <= j < rfv.len() implies 0 <= #[trigger] rfv[j] < rsh.len() by {
            assert(rfv.contains(rfv[j]));
        }
    }
    let nlfree = lfree.len();
    let mut oshape: Vec<usize> = Vec::new();
    let mut j: usize = 0;
    while j < nlfree
        invariant
            j <= nlfree,
            nlfree == lfree@.len(),
            to_ints(lfree@) == lfv,
            to_ints(lshape@) == lsh,
            forall|i: int| 0 <= i < lfv.len() ==> 0 <= #[trigger] lfv[i] < lsh.len(),
            oshape@.len() == j,
            forall|i: int| 0 <= i < j ==> #[trigger] oshape@[i] as int == gather(lsh, lfv)[i],
        decreases nlfree - j,
    {
        proof {
            assert(to_ints(lfree@)[j as int] == lfv[j as int]);
        }
        oshape.push(lshape[lfree[j]]);
        j += 1;
    }
    let nrfree = rfree.len();
    let mut j2: usize = 0;
    while j2 < nrfree
        invariant
            j2 <= nrfree,
            nrfree == rfree@.len(),
            nlfree == lfree@.len(),
            to_ints(rfree@) == rfv,
            to_ints(rshape@) == rsh,
            forall|i: int| 0 <= i < rfv.len() ==> 0 <= #[trigger] rfv[i] < rsh.len(),
            oshape@.len() == nlfree + j2,
            forall|i: int|
                0 <= i < nlfree ==> #[trigger] oshape@[i] as int == gather(lsh, lfv)[i],
            forall|i: int|
                0 <= i < j2 ==> #[trigger] oshape@[nlfree + i] as int == gather(rsh, rfv)[i],
        decreases nrfree - j2,
    {
        proof {
            assert(to_ints(rfree@)[j2 as int] == rfv[j2 as int]);
        }
        oshape.push(rshape[rfree[j2]]);
        j2 += 1;
    }
    let ghost osv = tensordot_shape(lhs@, rhs@, lax, rax);
    proof {
        assert forall|i: int| 0 <= i < to_ints(oshape@).len() implies to_ints(oshape@)[i]
            == osv[i] by {
            if i < nlfree {
                assert(oshape@[i] as int == gather(lsh, lfv)[i]);
            } else {
                assert(oshape@[nlfree + (i - nlfree)] as int == gather(rsh, rfv)[i - nlfree]);
            }
        }
        assert(to_ints(oshape@) =~= osv);
    }
    let k = lhs_axes.len();
    let mut cshape: Vec<usize> = Vec::new();
    let mut j3: usize = 0;
    while j3 < k
        invariant
            j3 <= k,
            k == lhs_axes@.len(),
            lax == to_ints(lhs_axes@),
            to_ints(lshape@) == lsh,
            forall|i: int| 0 <= i < lax.len() ==> 0 <= #[trigger] lax[i] < lsh.len(),
            cshape@.len() == j3,
            forall|i: int| 0 <= i < j3 ==> #[trigger] cshape@[i] as int == gather(lsh, lax)[i],
        decreases k - j3,
    {
        proof {
            assert(to_ints(lhs_axes@)[j3 as int] == lax[j3 as int]);
        }
        cshape.push(lshape[lhs_axes[j3]]);
        j3 += 1;
    }
    let ghost csv = gather(lsh, lax);
    proof {
        assert(to_ints(cshape@) =~= csv);
    }
    let ototal = match checked_prod(&oshape) {
        Some(v) => v,
        None => {
            return Err(EinsumError::OutputTooLarge);
        },
    };
    let ctotal = match checked_prod(&cshape) {
        Some(v) => v,
        None => {
            return Err(EinsumError::OutputTooLarge);
        },
    };
    let mut data: Vec<i64> = Vec::new();
    let mut p: usize = 0;
    while p < ototal
        invariant
            p <= ototal,
            ototal as int == prod_all(osv),
            ctotal as int == prod_all(csv),
            osv == tensordot_shape(lhs@, rhs@, lax, rax),
            csv == gather(lsh, lax),
            lsh == lhs@.shape,
            rsh == rhs@.shape,
            lax == to_ints(lhs_axes@),
            rax == to_ints(rhs_axes@),
            lfv == free_axes(lsh.len() as int, lax),
            rfv == free_axes(rsh.len() as int, rax),
            to_ints(oshape@) == osv,
            to_ints(cshape@) == csv,
            to_ints(lfree@) == lfv,
            to_ints(rfree@) == rfv,
            nlfree == lfree@.len(),
            lrank as int == lsh.len(),
            rrank as int == rsh.len(),
            lhs@.wf(),
            rhs@.wf(),
            valid_axes(lsh, rsh, lax, rax),
            data@.len() == p,
            forall|i: int|
                0 <= i < p ==> #[trigger] data@[i] == pair_sum(
                    lhs@,
                    rhs@,
                    lax,
                    rax,
                    unflatten(i, osv),
                    prod_all(csv),
                ),
        decreases ototal - p,
    {
        let oidx = index_of_flat(p, &oshape);
        let ghost o = unflatten(p as int, osv);
        let mut acc: i64 = 0i64;
        let mut q: usize = 0;
        while q < ctotal
            invariant
                q <= ctotal,
                ctotal as int == prod_all(csv),
                osv == tensordot_shape(lhs@, rhs@, lax, rax),
                csv == gather(lsh, lax),
                lsh == lhs@.shape,
                rsh == rhs@.shape,
                lax == to_ints(lhs_axes@),
                rax == to_ints(rhs_axes@),
                lfv == free_axes(lsh.len() as int, lax),
                rfv == free_axes(rsh.len() as int, rax),
                to_ints(oshape@) == osv,
                to_ints(cshape@) == csv,
                to_ints(lfree@) == lfv,
                to_ints(rfree@) == rfv,
                nlfree == lfree@.len(),
                lrank as int == lsh.len(),
                rrank as int == rsh.len(),
                lhs@.wf(),
                rhs@.wf(),
                valid_axes(lsh, rsh, lax, rax),
                to_ints(oidx@) == o,
                in_bounds(o, osv),
                acc == pair_sum(lhs@, rhs@, lax, rax, o, q as int),
            decreases ctotal - q,
        {
            let qidx = index_of_flat(q, &cshape);
            let ghost qa = unflatten(q as int, csv);
            proof {
                lemma_free_axes_facts(lsh.len() as int, lax);
                lemma_free_axes_facts(rsh.len() as int, rax);
                assert forall|i: int| 0 <= i < lfv.len() implies osv[0 + i] == #[trigger] gather(
                    lsh,
                    lfv,
                )[i] by {
                    assert(osv[i] == (gather(lsh, lfv) + gather(rsh, rfv))[i]);
                }
                assert forall|i: int| 0 <= i < rfv.len() implies osv[nlfree + i]
                    == #[trigger] gather(rsh, rfv)[i] by {
                    assert(osv[nlfree + i] == (gather(lsh, lfv) + gather(rsh, rfv))[nlfree + i]);
                }
                lemma_point_in_bounds(lsh, lax, 0, o, qa, osv);
                lemma_point_in_bounds(rsh, rax, nlfree as int, o, qa, osv);
            }
            let lpoint = build_point(&oidx, &qidx, lhs_axes, &lfree, lrank, 0);
            let rpoint = build_point(&oidx, &qidx, rhs_axes, &rfree, rrank, nlfree);
            proof {
                assert(to_ints(lpoint@) =~= point_for(lsh, lax, 0, o, qa));
                assert(to_ints(rpoint@) =~= point_for(rsh, rax, nlfree as int, o, qa));
            }
            acc = acc.wrapping_add(lhs.get(&lpoint).wrapping_mul(rhs.get(&rpoint)));
            q += 1;
        }
        data.push(acc);
        p += 1;
    }
    let r = Tensor { shape: oshape, data };
    proof {
        let goal = tensordot_model(lhs@, rhs@, lax, rax);
        lemma_prod_all_nonneg(osv);
        assert(r@.shape =~= osv);
        assert(r@.data =~= goal.data);
    }
    Ok(r)
}

/// A planned tensor dot product over fixed axis pairs.
pub struct TensordotGeneral {
    pub lhs_axes: Vec<usize>,
    pub rhs_axes: Vec<usize>,
}

impl TensordotGeneral {
    pub fn from_axis_numbers(lhs_axes: Vec<usize>, rhs_axes: Vec<usize>) -> (r: TensordotGeneral)
        ensures
            r.lhs_axes@ == lhs_axes@,
            r.rhs_axes@ == rhs_axes@,
    {
        TensordotGeneral { lhs_axes, rhs_axes }
    }
}

impl crate::contractors::PairContractor for TensordotGeneral {
    open spec fn pair_req(&self, lhs: TensorModel, rhs: TensorModel) -> bool {
        &&& lhs.wf()
        &&& rhs.wf()
        &&& valid_axes(lhs.shape, rhs.shape, to_ints(self.lhs_axes@), to_ints(self.rhs_axes@))
        &&& tensordot_fits(lhs, rhs, to_ints(self.lhs_axes@), to_ints(self.rhs_axes@))
    }

    open spec fn pair_post(&self, lhs: TensorModel, rhs: TensorModel, r: TensorModel) -> bool {
        &&& r == tensordot_model(lhs, rhs, to_ints(self.lhs_axes@), to_ints(self.rhs_axes@))
        &&& r.wf()
    }

    fn contract_pair(&self, lhs: &Tensor, rhs: &Tensor) -> (r: Tensor) {
        match tensordot(lhs, rhs, &self.lhs_axes, &self.rhs_axes) {
            Ok(t) => t,
            Err(e) => {
                proof {
                    assert(false);
                }
                Tensor::scalar(0)
            },
        }
    }
}

} // verus!
