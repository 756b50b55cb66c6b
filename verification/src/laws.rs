//! Algebraic laws of the contraction semantics: outer products, scalar dot
//! products, diagonal extraction, pure permutation, full summation, matrix
//! multiplication, operand-order independence, and determinism.
use vstd::prelude::*;
use crate::contraction::{idxof, lemma_idxof_unique, ContractionModel};
use crate::indexing::{
    flat_index, in_bounds, lemma_flat_index_bounds, lemma_flat_unflatten, lemma_unflatten_works,
    prod_all, unflatten,
};
use crate::semantics::{
    cell_value, coord_of, einsum_model, lemma_wadd_zero, lemma_wmul_comm, lemma_wmul_one,
    operand_point, sizes_of_seq, sum_value, term_value, wadd, wmul,
};
use crate::tensor::TensorModel;
use crate::tensordot::{
    free_axes, gather, lemma_free_axes_facts, lemma_posof_unique, pair_sum, point_for, posof,
    tensordot_model, tensordot_shape, valid_axes,
};

verus! {

/// The axes `0..rank` when nothing is taken.
proof fn lemma_free_axes_identity(rank: int)
    ensures
        free_axes(rank, Seq::<int>::empty()).len() == if rank <= 0 {
            0int
        } else {
            rank
        },
        forall|i: int|
            0 <= i < free_axes(rank, Seq::<int>::empty()).len() ==> #[trigger] free_axes(
                rank,
                Seq::<int>::empty(),
            )[i] == i,
    decreases rank,
{
    if rank > 0 {
        lemma_free_axes_identity(rank - 1);
        assert(!Seq::<int>::empty().contains(rank - 1));
    }
}

/// With no contracted axes, the pairwise contraction is the outer product:
/// every output cell is the plain product of one element of each operand.
pub proof fn lemma_outer_product(a: TensorModel, b: TensorModel, o: Seq<int>)
    requires
        a.wf(),
        b.wf(),
        in_bounds(o, tensordot_shape(a, b, Seq::empty(), Seq::empty())),
    ensures
        tensordot_model(a, b, Seq::empty(), Seq::empty()).at(o) == wmul(
            a.at(o.take(a.shape.len() as int)),
            b.at(o.skip(a.shape.len() as int)),
        ),
{
    let e = Seq::<int>::empty();
    let ra = a.shape.len() as int;
    let rb = b.shape.len() as int;
    lemma_free_axes_identity(ra);
    lemma_free_axes_identity(rb);
    let osh = tensordot_shape(a, b, e, e);
    assert(gather(a.shape, free_axes(ra, e)) =~= a.shape);
    assert(gather(b.shape, free_axes(rb, e)) =~= b.shape);
    assert(osh =~= a.shape + b.shape);
    let q0 = unflatten(0, gather(a.shape, e));
    assert(gather(a.shape, e) =~= Seq::<int>::empty());
    assert(prod_all(gather(a.shape, e)) == 1);
    lemma_free_axes_facts(ra, e);
    lemma_free_axes_facts(rb, e);
    let pl = point_for(a.shape, e, 0, o, q0);
    let pr = point_for(b.shape, e, ra, o, q0);
    assert forall|ax: int| 0 <= ax < ra implies pl[ax] == o.take(ra)[ax] by {
        assert(!e.contains(ax));
        assert(free_axes(ra, e)[ax] == ax);
        lemma_posof_unique(free_axes(ra, e), ax, ax);
    }
    assert(pl =~= o.take(ra));
    assert forall|ax: int| 0 <= ax < rb implies pr[ax] == o.skip(ra)[ax] by {
        assert(!e.contains(ax));
        assert(free_axes(rb, e)[ax] == ax);
        lemma_posof_unique(free_axes(rb, e), ax, ax);
    }
    assert(pr =~= o.skip(ra));
    let cell = wmul(a.at(o.take(ra)), b.at(o.skip(ra)));
    assert(pair_sum(a, b, e, e, o, 0) == 0i64);
    assert(free_axes(ra, e).len() as int == ra);
    assert(pair_sum(a, b, e, e, o, 1) == wadd(0i64, cell));
    lemma_wadd_zero(cell);
    lemma_flat_index_bounds(o, osh);
    lemma_flat_unflatten(o, osh);
}

/// Sum of the elementwise products of the first `m` elements of two equally
/// shaped tensors: the scalar dot product.
pub open spec fn dot_all(a: TensorModel, b: TensorModel, m: int) -> i64
    decreases m,
{
    if m <= 0 {
        0i64
    } else {
        wadd(dot_all(a, b, m - 1), wmul(a.data[m - 1], b.data[m - 1]))
    }
}

/// The identity axis list `0..rank`.
pub open spec fn all_axes(rank: int) -> Seq<int> {
    Seq::new(if rank <= 0 { 0nat } else { rank as nat }, |i: int| i)
}

proof fn lemma_full_contraction_sum(a: TensorModel, b: TensorModel, m: int)
    requires
        a.wf(),
        b.wf(),
        b.shape == a.shape,
        0 <= m <= prod_all(a.shape),
    ensures
        pair_sum(a, b, all_axes(a.shape.len() as int), all_axes(a.shape.len() as int), Seq::empty(), m)
            == dot_all(a, b, m),
    decreases m,
{
    let ra = a.shape.len() as int;
    let ax = all_axes(ra);
    if m > 0 {
        lemma_full_contraction_sum(a, b, m - 1);
        assert(gather(a.shape, ax) =~= a.shape);
        let qa = unflatten(m - 1, gather(a.shape, ax));
        assert forall|i: int| 0 <= i < a.shape.len() implies 0 <= #[trigger] a.shape[i] by {
        }
        lemma_unflatten_works(m - 1, a.shape);
        let pl = point_for(a.shape, ax, 0, Seq::empty(), qa);
        assert forall|axis: int| 0 <= axis < ra implies pl[axis] == qa[axis] by {
            assert(ax[axis] == axis);
            assert(ax.contains(axis));
            lemma_posof_unique(ax, axis, axis);
        }
        assert(pl =~= qa);
        let pr = point_for(b.shape, ax, free_axes(ra, ax).len() as int, Seq::empty(), qa);
        assert forall|axis: int| 0 <= axis < ra implies pr[axis] == qa[axis] by {
            assert(ax[axis] == axis);
            assert(ax.contains(axis));
            lemma_posof_unique(ax, axis, axis);
        }
        assert(pr =~= qa);
        assert(a.at(qa) == a.data[m - 1]);
        assert(b.at(qa) == b.data[m - 1]);
    }
}

/// Contracting every axis of both operands, with no batch axes, yields the
/// scalar dot product: a rank-0 result holding the sum of all elementwise
/// products.
pub proof fn lemma_scalar_dot(a: TensorModel, b: TensorModel)
    requires
        a.wf(),
        b.wf(),
        b.shape == a.shape,
    ensures
        tensordot_model(a, b, all_axes(a.shape.len() as int), all_axes(a.shape.len() as int)).shape
            == Seq::<int>::empty(),
        tensordot_model(a, b, all_axes(a.shape.len() as int), all_axes(a.shape.len() as int)).data
            == seq![dot_all(a, b, prod_all(a.shape))],
{
    let ra = a.shape.len() as int;
    let ax = all_axes(ra);
    let model = tensordot_model(a, b, ax, ax);
    assert forall|e: int| !(#[trigger] free_axes(ra, ax).contains(e)) by {
        lemma_free_axes_facts(ra, ax);
        if free_axes(ra, ax).contains(e) {
            assert(0 <= e < ra && !ax.contains(e));
            assert(ax[e] == e);
        }
    }
    assert(free_axes(ra, ax).len() == 0) by {
        if free_axes(ra, ax).len() > 0 {
            let w = free_axes(ra, ax)[0];
            assert(free_axes(ra, ax).contains(w));
        }
    }
    assert(free_axes(b.shape.len() as int, ax).len() == 0) by {
        lemma_free_axes_facts(ra, ax);
        if free_axes(ra, ax).len() > 0 {
            let w = free_axes(ra, ax)[0];
            assert(free_axes(ra, ax).contains(w));
        }
    }
    assert(tensordot_shape(a, b, ax, ax) =~= Seq::<int>::empty());
    assert(model.shape =~= Seq::<int>::empty());
    assert(gather(a.shape, ax) =~= a.shape);
    assert forall|i: int| 0 <= i < a.shape.len() implies 0 <= #[trigger] a.shape[i] by {
    }
    crate::indexing::lemma_prod_all_nonneg(a.shape);
    assert(model.data.len() == 1);
    assert(unflatten(0, Seq::<int>::empty()) =~= Seq::<int>::empty());
    lemma_full_contraction_sum(a, b, prod_all(a.shape));
    assert(model.data[0] == dot_all(a, b, prod_all(a.shape)));
    assert(model.data =~= seq![dot_all(a, b, prod_all(a.shape))]);
}

/// Diagonal extraction: with one operand labelled `i,i` and output `i`, the
/// k-th output element is the input's `(k, k)` element.
pub proof fn lemma_diagonal(m: ContractionModel, t: TensorModel, k: int)
    requires
        m.wf(),
        m.operands == seq![seq!['i', 'i']],
        m.output == seq!['i'],
        t.wf(),
        t.shape == sizes_of_seq(m.operands[0], m.sizes),
        0 <= k < m.sizes['i'],
    ensures
        einsum_model(m, seq![t]).at(seq![k]) == t.at(seq![k, k]),
{
    let osz = sizes_of_seq(m.output, m.sizes);
    assert(m.summed =~= Seq::<char>::empty()) by {
        crate::engine::lemma_wf_classification(m);
        if m.summed.len() > 0 {
            assert(m.summed.contains(m.summed[0]));
            assert(m.operands[0].contains(m.summed[0])) by {
                crate::contraction::lemma_collect_summed_props(
                    crate::contraction::flat_labels(m.operands),
                    m.output,
                    Seq::empty(),
                );
                assert(crate::contraction::flat_labels(m.operands).contains(m.summed[0]));
                let fl = crate::contraction::flat_labels(m.operands);
                assert(fl =~= m.operands[0]) by {
                    assert(crate::contraction::flat_labels(m.operands.drop_last())
                        =~= Seq::<char>::empty()) by {
                        assert(m.operands.drop_last().len() == 0);
                    }
                }
            }
            let w = choose|w: int| 0 <= w < m.operands[0].len() && m.operands[0][w] == m.summed[0];
            assert(m.operands[0][w] == 'i');
            assert(m.output.contains('i')) by {
                assert(m.output[0] == 'i');
            }
        }
    }
    let o = seq![k];
    assert(osz.len() == 1 && osz[0] == m.sizes['i']) by {
        assert(m.output[0] == 'i');
    }
    assert(in_bounds(o, osz));
    let ssz = sizes_of_seq(m.summed, m.sizes);
    assert(ssz =~= Seq::<int>::empty());
    assert(prod_all(ssz) == 1);
    let q0 = unflatten(0, ssz);
    assert(q0 =~= Seq::<int>::empty());
    let pt = operand_point(m.operands[0], m.output, o, m.summed, q0);
    assert(pt.len() == 2);
    assert forall|axn: int| 0 <= axn < 2 implies pt[axn] == seq![k, k][axn] by {
        assert(m.operands[0][axn] == 'i');
        assert(m.output.contains('i')) by {
            assert(m.output[0] == 'i');
        }
        lemma_idxof_unique(m.output, 'i', 0);
    }
    assert(pt =~= seq![k, k]);
    let tv = t.at(seq![k, k]);
    assert(seq![t][0] == t);
    assert(m.operands.len() == 1);
    assert(sum_value(seq![t], m.operands, m.output, o, m.summed, ssz, 0) == 0i64);
    assert(term_value(seq![t], m.operands, m.output, o, m.summed, q0, 0) == 1i64);
    assert(term_value(seq![t], m.operands, m.output, o, m.summed, q0, 1) == wmul(1i64, tv));
    assert(cell_value(m, seq![t], o) == wadd(0i64, wmul(1i64, tv)));
    lemma_wmul_one(tv);
    lemma_wadd_zero(tv);
    lemma_flat_index_bounds(o, osz);
    lemma_flat_unflatten(o, osz);
}

/// Pure permutation: with one operand labelled `i,j` and output `j,i`, the
/// result at `(j, i)` is the input at `(i, j)`.
pub proof fn lemma_transpose(m: ContractionModel, t: TensorModel, i: int, j: int)
    requires
        m.wf(),
        m.operands == seq![seq!['i', 'j']],
        m.output == seq!['j', 'i'],
        t.wf(),
        t.shape == sizes_of_seq(m.operands[0], m.sizes),
        0 <= i < m.sizes['i'],
        0 <= j < m.sizes['j'],
    ensures
        einsum_model(m, seq![t]).at(seq![j, i]) == t.at(seq![i, j]),
{
    let osz = sizes_of_seq(m.output, m.sizes);
    assert('i' != 'j');
    assert(m.summed =~= Seq::<char>::empty()) by {
        crate::engine::lemma_wf_classification(m);
        if m.summed.len() > 0 {
            assert(m.summed.contains(m.summed[0]));
            let fl = crate::contraction::flat_labels(m.operands);
            crate::contraction::lemma_collect_summed_props(fl, m.output, Seq::empty());
            assert(fl.contains(m.summed[0]));
            assert(fl =~= m.operands[0]) by {
                assert(crate::contraction::flat_labels(m.operands.drop_last())
                    =~= Seq::<char>::empty()) by {
                    assert(m.operands.drop_last().len() == 0);
                }
            }
            let w = choose|w: int| 0 <= w < m.operands[0].len() && m.operands[0][w] == m.summed[0];
            if w == 0 {
                assert(m.output.contains('i')) by {
                    assert(m.output[1] == 'i');
                }
            } else {
                assert(m.output.contains('j')) by {
                    assert(m.output[0] == 'j');
                }
            }
        }
    }
    let o = seq![j, i];
    assert(osz.len() == 2 && osz[0] == m.sizes['j'] && osz[1] == m.sizes['i']) by {
        assert(m.output[0] == 'j' && m.output[1] == 'i');
    }
    assert(in_bounds(o, osz));
    let ssz = sizes_of_seq(m.summed, m.sizes);
    assert(ssz =~= Seq::<int>::empty());
    let q0 = unflatten(0, ssz);
    let pt = operand_point(m.operands[0], m.output, o, m.summed, q0);
    assert forall|axn: int| 0 <= axn < 2 implies pt[axn] == seq![i, j][axn] by {
        assert(m.output[0] == 'j' && m.output[1] == 'i');
        if axn == 0 {
            assert(m.operands[0][0] == 'i');
            assert(m.output.contains('i')) by {
                assert(m.output[1] == 'i');
            }
            lemma_idxof_unique(m.output, 'i', 1);
        } else {
            assert(m.operands[0][1] == 'j');
            assert(m.output.contains('j')) by {
                assert(m.output[0] == 'j');
            }
            lemma_idxof_unique(m.output, 'j', 0);
        }
    }
    assert(pt =~= seq![i, j]);
    let tv = t.at(seq![i, j]);
    assert(seq![t][0] == t);
    assert(m.operands.len() == 1);
    assert(sum_value(seq![t], m.operands, m.output, o, m.summed, ssz, 0) == 0i64);
    assert(term_value(seq![t], m.operands, m.output, o, m.summed, q0, 0) == 1i64);
    assert(term_value(seq![t], m.operands, m.output, o, m.summed, q0, 1) == wmul(1i64, tv));
    assert(cell_value(m, seq![t], o) == wadd(0i64, wmul(1i64, tv)));
    lemma_wmul_one(tv);
    lemma_wadd_zero(tv);
    lemma_flat_index_bounds(o, osz);
    lemma_flat_unflatten(o, osz);
}

/// Sum of the first `m` elements of a buffer.
pub open spec fn sum_data(s: Seq<i64>, m: int) -> i64
    decreases m,
{
    if m <= 0 {
        0i64
    } else {
        wadd(sum_data(s, m - 1), s[m - 1])
    }
}

proof fn lemma_full_sum_terms(m: ContractionModel, t: TensorModel, j: int)
    requires
        m.wf(),
        m.operands == seq![seq!['i', 'j']],
        m.output == Seq::<char>::empty(),
        m.summed == seq!['i', 'j'],
        t.wf(),
        t.shape == sizes_of_seq(m.operands[0], m.sizes),
        0 <= j <= prod_all(t.shape),
    ensures
        sum_value(
            seq![t],
            m.operands,
            m.output,
            Seq::empty(),
            m.summed,
            sizes_of_seq(m.summed, m.sizes),
            j,
        ) == sum_data(t.data, j),
    decreases j,
{
    let ssz = sizes_of_seq(m.summed, m.sizes);
    assert(ssz =~= t.shape) by {
        assert(m.summed[0] == 'i' && m.summed[1] == 'j');
        assert(m.operands[0][0] == 'i' && m.operands[0][1] == 'j');
    }
    if j > 0 {
        lemma_full_sum_terms(m, t, j - 1);
        assert forall|i2: int| 0 <= i2 < t.shape.len() implies 0 <= #[trigger] t.shape[i2] by {
        }
        lemma_unflatten_works(j - 1, t.shape);
        let qa = unflatten(j - 1, ssz);
        let pt = operand_point(m.operands[0], m.output, Seq::empty(), m.summed, qa);
        assert('i' != 'j');
        assert forall|axn: int| 0 <= axn < 2 implies pt[axn] == qa[axn] by {
            if axn == 0 {
                assert(m.operands[0][0] == 'i');
                assert(!m.output.contains('i'));
                assert(m.summed[0] == 'i');
                lemma_idxof_unique(m.summed, 'i', 0);
            } else {
                assert(m.operands[0][1] == 'j');
                assert(!m.output.contains('j'));
                assert(m.summed[1] == 'j');
                lemma_idxof_unique(m.summed, 'j', 1);
            }
        }
        assert(pt =~= qa);
        assert(t.at(qa) == t.data[j - 1]);
        let tv = t.data[j - 1];
        assert(seq![t][0] == t);
        assert(m.operands.len() == 1);
        assert(term_value(seq![t], m.operands, m.output, Seq::empty(), m.summed, qa, 0) == 1i64);
        assert(term_value(seq![t], m.operands, m.output, Seq::empty(), m.summed, qa, 1) == wmul(
            1i64,
            tv,
        ));
        lemma_wmul_one(tv);
    }
}

/// Full summation: with one operand labelled `i,j` and an empty output, the
/// single output cell is the sum of all elements of the input.
pub proof fn lemma_full_sum(m: ContractionModel, t: TensorModel)
    requires
        m.wf(),
        m.operands == seq![seq!['i', 'j']],
        m.output == Seq::<char>::empty(),
        m.summed == seq!['i', 'j'],
        t.wf(),
        t.shape == sizes_of_seq(m.operands[0], m.sizes),
    ensures
        einsum_model(m, seq![t]).shape == Seq::<int>::empty(),
        einsum_model(m, seq![t]).data == seq![sum_data(t.data, prod_all(t.shape))],
{
    let model = einsum_model(m, seq![t]);
    let osz = sizes_of_seq(m.output, m.sizes);
    assert(osz =~= Seq::<int>::empty());
    assert(model.shape =~= Seq::<int>::empty());
    assert(model.data.len() == 1);
    let ssz = sizes_of_seq(m.summed, m.sizes);
    assert(ssz =~= t.shape) by {
        assert(m.summed[0] == 'i' && m.summed[1] == 'j');
        assert(m.operands[0][0] == 'i' && m.operands[0][1] == 'j');
    }
    assert forall|i2: int| 0 <= i2 < t.shape.len() implies 0 <= #[trigger] t.shape[i2] by {
    }
    crate::indexing::lemma_prod_all_nonneg(t.shape);
    assert(unflatten(0, osz) =~= Seq::<int>::empty());
    lemma_full_sum_terms(m, t, prod_all(t.shape));
    assert(model.data[0] == sum_data(t.data, prod_all(t.shape)));
    assert(model.data =~= seq![sum_data(t.data, prod_all(t.shape))]);
}

/// Matrix-multiplication cell: sum over the first `m` values of the shared
/// index of `lhs[i][x] * rhs[x][k]`.
pub open spec fn matmul_cell(lhs: TensorModel, rhs: TensorModel, i: int, k: int, m: int) -> i64
    decreases m,
{
    if m <= 0 {
        0i64
    } else {
        wadd(matmul_cell(lhs, rhs, i, k, m - 1), wmul(lhs.at(seq![i, m - 1]), rhs.at(seq![m - 1, k])))
    }
}

/// The free axes of the two-dimensional matrix-multiplication operands.
proof fn lemma_matmul_free_axes()
    ensures
        free_axes(2, seq![1int]) == seq![0int],
        free_axes(2, seq![0int]) == seq![1int],
{
    let lax = seq![1int];
    let rax = seq![0int];
    assert(lax[0] == 1int);
    assert(rax[0] == 0int);
    assert(lax.contains(1int));
    assert(rax.contains(0int));
    assert(!lax.contains(0int)) by {
        if lax.contains(0int) {
            let w = choose|w: int| 0 <= w < lax.len() && lax[w] == 0int;
            assert(w == 0);
        }
    }
    assert(!rax.contains(1int)) by {
        if rax.contains(1int) {
            let w = choose|w: int| 0 <= w < rax.len() && rax[w] == 1int;
            assert(w == 0);
        }
    }
    assert(free_axes(0, lax) =~= Seq::<int>::empty());
    assert(free_axes(1, lax) =~= seq![0int]);
    assert(free_axes(2, lax) =~= seq![0int]);
    assert(free_axes(0, rax) =~= Seq::<int>::empty());
    assert(free_axes(1, rax) =~= Seq::<int>::empty());
    assert(free_axes(2, rax) =~= seq![1int]);
}

proof fn lemma_matmul_terms(a: TensorModel, b: TensorModel, i: int, k: int, m: int)
    requires
        a.wf(),
        b.wf(),
        a.shape.len() == 2,
        b.shape.len() == 2,
        a.shape[1] == b.shape[0],
        0 <= i < a.shape[0],
        0 <= k < b.shape[1],
        0 <= m <= a.shape[1],
    ensures
        pair_sum(a, b, seq![1int], seq![0int], seq![i, k], m) == matmul_cell(a, b, i, k, m),
    decreases m,
{
    let lax = seq![1int];
    let rax = seq![0int];
    let o = seq![i, k];
    if m > 0 {
        lemma_matmul_terms(a, b, i, k, m - 1);
        let cs = gather(a.shape, lax);
        assert(cs =~= seq![a.shape[1]]);
        let qa = unflatten(m - 1, cs);
        assert(qa =~= seq![(m - 1) % a.shape[1]]) by {
            assert(unflatten((m - 1) / a.shape[1], cs.drop_last()) =~= Seq::<int>::empty());
        }
        vstd::arithmetic::div_mod::lemma_small_mod((m - 1) as nat, a.shape[1] as nat);
        assert(qa =~= seq![m - 1]);
        let lf = free_axes(2, lax);
        let rf = free_axes(2, rax);
        lemma_matmul_free_axes();
        assert(pair_sum(a, b, lax, rax, o, 0) == 0i64);
        let pl = point_for(a.shape, lax, 0, o, qa);
        assert forall|axn: int| 0 <= axn < 2 implies pl[axn] == seq![i, m - 1][axn] by {
            if axn == 0 {
                assert(!lax.contains(0int)) by {
                    assert(lax[0] == 1int);
                }
                lemma_posof_unique(lf, 0int, 0);
            } else {
                assert(lax.contains(1int)) by {
                    assert(lax[0] == 1int);
                }
                lemma_posof_unique(lax, 1int, 0);
            }
        }
        assert(pl =~= seq![i, m - 1]);
        let pr = point_for(b.shape, rax, 1, o, qa);
        assert forall|axn: int| 0 <= axn < 2 implies pr[axn] == seq![m - 1, k][axn] by {
            if axn == 0 {
                assert(rax.contains(0int)) by {
                    assert(rax[0] == 0int);
                }
                lemma_posof_unique(rax, 0int, 0);
            } else {
                assert(!rax.contains(1int)) by {
                    assert(rax[0] == 0int);
                }
                lemma_posof_unique(rf, 1int, 0);
            }
        }
        assert(pr =~= seq![m - 1, k]);
        assert(lf.len() == 1);
    }
}

/// A contraction of `(p,q)` with `(q,r)` over the shared axis is standard
/// matrix multiplication: the result has shape `(p,r)` and its `(i,k)` cell
/// is the dot product of row `i` with column `k`.
pub proof fn lemma_matmul(a: TensorModel, b: TensorModel, i: int, k: int)
    requires
        a.wf(),
        b.wf(),
        a.shape.len() == 2,
        b.shape.len() == 2,
        a.shape[1] == b.shape[0],
        0 <= i < a.shape[0],
        0 <= k < b.shape[1],
    ensures
        tensordot_shape(a, b, seq![1int], seq![0int]) == seq![a.shape[0], b.shape[1]],
        tensordot_model(a, b, seq![1int], seq![0int]).at(seq![i, k]) == matmul_cell(
            a,
            b,
            i,
            k,
            a.shape[1],
        ),
{
    let lax = seq![1int];
    let rax = seq![0int];
    let lf = free_axes(2, lax);
    let rf = free_axes(2, rax);
    lemma_matmul_free_axes();
    let osh = tensordot_shape(a, b, lax, rax);
    assert(osh =~= seq![a.shape[0], b.shape[1]]);
    let o = seq![i, k];
    assert(in_bounds(o, osh));
    let cs = gather(a.shape, lax);
    assert(cs =~= seq![a.shape[1]]);
    assert(prod_all(cs) == a.shape[1]) by {
        assert(cs.drop_last() =~= Seq::<int>::empty());
        assert(prod_all(cs) == prod_all(cs.drop_last()) * cs.last());
        assert(prod_all(Seq::<int>::empty()) == 1);
        assert(1 * a.shape[1] == a.shape[1]) by (nonlinear_arith);
    }
    lemma_matmul_terms(a, b, i, k, a.shape[1]);
    lemma_flat_index_bounds(o, osh);
    lemma_flat_unflatten(o, osh);
}

/// Both orderings sum the same products, term for term.
proof fn lemma_pair_swap_sums(
    m1: ContractionModel,
    m2: ContractionModel,
    t0: TensorModel,
    t1: TensorModel,
    o: Seq<int>,
    j: int,
)
    requires
        m1.operands.len() == 2,
        m2.operands == seq![m1.operands[1], m1.operands[0]],
        m2.output == m1.output,
        m2.sizes == m1.sizes,
        m2.summed == m1.summed,
        0 <= j,
    ensures
        sum_value(
            seq![t1, t0],
            m2.operands,
            m2.output,
            o,
            m2.summed,
            sizes_of_seq(m2.summed, m2.sizes),
            j,
        ) == sum_value(
            seq![t0, t1],
            m1.operands,
            m1.output,
            o,
            m1.summed,
            sizes_of_seq(m1.summed, m1.sizes),
            j,
        ),
    decreases j,
{
    let ssz = sizes_of_seq(m1.summed, m1.sizes);
    assert(sizes_of_seq(m2.summed, m2.sizes) == ssz);
    if j > 0 {
        lemma_pair_swap_sums(m1, m2, t0, t1, o, j - 1);
        let q = unflatten(j - 1, ssz);
        let p0 = operand_point(m1.operands[0], m1.output, o, m1.summed, q);
        let p1 = operand_point(m1.operands[1], m1.output, o, m1.summed, q);
        assert(m2.operands[0] == m1.operands[1]);
        assert(m2.operands[1] == m1.operands[0]);
        assert(operand_point(m2.operands[0], m2.output, o, m2.summed, q) == p1);
        assert(operand_point(m2.operands[1], m2.output, o, m2.summed, q) == p0);
        let v0 = t0.at(p0);
        let v1 = t1.at(p1);
        assert(seq![t0, t1][0] == t0 && seq![t0, t1][1] == t1);
        assert(seq![t1, t0][0] == t1 && seq![t1, t0][1] == t0);
        assert(m1.operands.len() == 2 && m2.operands.len() == 2);
        assert(term_value(seq![t0, t1], m1.operands, m1.output, o, m1.summed, q, 0) == 1i64);
        assert(term_value(seq![t0, t1], m1.operands, m1.output, o, m1.summed, q, 1) == wmul(
            1i64,
            v0,
        ));
        assert(term_value(seq![t0, t1], m1.operands, m1.output, o, m1.summed, q, 2) == wmul(
            wmul(1i64, v0),
            v1,
        ));
        assert(term_value(seq![t1, t0], m2.operands, m2.output, o, m2.summed, q, 0) == 1i64);
        assert(term_value(seq![t1, t0], m2.operands, m2.output, o, m2.summed, q, 1) == wmul(
            1i64,
            v1,
        ));
        assert(term_value(seq![t1, t0], m2.operands, m2.output, o, m2.summed, q, 2) == wmul(
            wmul(1i64, v1),
            v0,
        ));
        lemma_wmul_one(v0);
        lemma_wmul_one(v1);
        lemma_wmul_comm(v0, v1);
    }
}

/// Swapping the two operands of a pairwise contraction (with the summed
/// labels kept in the same enumeration order) does not change the result:
/// the pairing order does not matter.
pub proof fn lemma_pair_order_irrelevant(
    m1: ContractionModel,
    m2: ContractionModel,
    t0: TensorModel,
    t1: TensorModel,
)
    requires
        m1.operands.len() == 2,
        m2.operands == seq![m1.operands[1], m1.operands[0]],
        m2.output == m1.output,
        m2.sizes == m1.sizes,
        m2.summed == m1.summed,
    ensures
        einsum_model(m2, seq![t1, t0]) == einsum_model(m1, seq![t0, t1]),
{
    let osz = sizes_of_seq(m1.output, m1.sizes);
    let g1 = einsum_model(m1, seq![t0, t1]);
    let g2 = einsum_model(m2, seq![t1, t0]);
    assert(g1.shape =~= g2.shape);
    assert(g1.data.len() == g2.data.len());
    let ssz = sizes_of_seq(m1.summed, m1.sizes);
    assert forall|p: int| 0 <= p < g1.data.len() implies g2.data[p] == #[trigger] g1.data[p] by {
        let o = unflatten(p, osz);
        if prod_all(ssz) >= 0 {
            lemma_pair_swap_sums(m1, m2, t0, t1, o, prod_all(ssz));
        }
    }
    assert(g1.data =~= g2.data);
    assert(g1 == g2) by {
        assert(g1.shape == g2.shape);
    }
}

/// The contraction is a pure function of its inputs: two runs on identical
/// inputs produce identical outputs.
pub proof fn lemma_contract_deterministic(
    m: ContractionModel,
    tens: Seq<TensorModel>,
    r1: TensorModel,
    r2: TensorModel,
)
    requires
        r1 == einsum_model(m, tens),
        r2 == einsum_model(m, tens),
    ensures
        r1 == r2,
{
}

} // verus!
