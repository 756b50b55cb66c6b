//! Singleton reduction operators: permutation, diagonal extraction, axis
//! summation, and their composition. Each operator is planned once from a
//! specification and then applied to tensors; every operator's result is
//! pinned down cell for cell.
use vstd::prelude::*;
use crate::contraction::{
    distinct_chars, flat_labels, idxof, lemma_idxof_unique, position_of, ContractionModel,
    SizedContraction,
};
use crate::engine::{lemma_wf_classification, shape_of_labels};
use crate::indexing::{
    checked_prod, in_bounds, index_of_flat, lemma_flat_index_bounds, lemma_flat_unflatten,
    lemma_in_bounds_extents, lemma_prod_all_concat, lemma_prod_all_nonneg, lemma_prod_all_pos,
    lemma_unflatten_works, prod_all, to_ints, unflatten,
};
use crate::semantics::{
    cell_value, coord_of, einsum_model, labels_resolved, lemma_wadd_zero, lemma_wmul_one,
    operand_point, sizes_of_seq, sum_value, term_value, wadd, wmul,
};
use crate::tensor::{Tensor, TensorModel};

verus! {

/// The input multi-index read for output multi-index `o` when input axis `ax`
/// is merged into output axis `mapping[ax]`.
pub open spec fn remap_point(mapping: Seq<int>, o: Seq<int>) -> Seq<int> {
    Seq::new(mapping.len(), |ax: int| o[mapping[ax]])
}

/// Sum of the elements of `t` over the first `m` assignments of its trailing
/// axes, with the leading axes fixed at `o`.
pub open spec fn block_sum(t: TensorModel, o: Seq<int>, m: int) -> i64
    decreases m,
{
    if m <= 0 {
        0i64
    } else {
        wadd(block_sum(t, o, m - 1), t.at(o + unflatten(m - 1, t.shape.skip(o.len() as int))))
    }
}

/// Materialises the tensor whose output cell `o` holds `t` at the merged
/// index `remap_point(mapping, o)`: a permutation when `mapping` is a
/// bijection, a diagonal extraction when it merges axes.
pub fn remap_tensor(t: &Tensor, mapping: &Vec<usize>, out_shape: &Vec<usize>) -> (r: Tensor)
    requires
        t@.wf(),
        mapping@.len() == t@.rank(),
        forall|ax: int|
            0 <= ax < mapping@.len() ==> (#[trigger] mapping@[ax]) < out_shape@.len(),
        forall|ax: int|
            0 <= ax < mapping@.len() ==> to_ints(out_shape@)[#[trigger] mapping@[ax] as int]
                == t@.shape[ax],
        prod_all(to_ints(out_shape@)) <= usize::MAX,
    ensures
        r@.wf(),
        r@.shape == to_ints(out_shape@),
        forall|o: Seq<int>|
            in_bounds(o, to_ints(out_shape@)) ==> #[trigger] r@.at(o) == t@.at(
                remap_point(to_ints(mapping@), o),
            ),
{
    let ghost osv = to_ints(out_shape@);
    let ghost mv = to_ints(mapping@);
    proof {
        crate::indexing::lemma_prod_all_nonneg_from_usize(out_shape@);
    }
    let ototal = match checked_prod(out_shape) {
        Some(v) => v,
        None => {
            proof {
                assert(false);
            }
            0
        },
    };
    let n = mapping.len();
    let mut data: Vec<i64> = Vec::new();
    let mut p: usize = 0;
    while p < ototal
        invariant
            p <= ototal,
            ototal as int == prod_all(osv),
            osv == to_ints(out_shape@),
            mv == to_ints(mapping@),
            n == mapping@.len(),
            t@.wf(),
            mapping@.len() == t@.rank(),
            forall|ax: int|
                0 <= ax < mapping@.len() ==> (#[trigger] mapping@[ax]) < out_shape@.len(),
            forall|ax: int|
                0 <= ax < mapping@.len() ==> osv[#[trigger] mapping@[ax] as int] == t@.shape[ax],
            data@.len() == p,
            forall|j: int|
                0 <= j < p ==> #[trigger] data@[j] == t@.at(remap_point(mv, unflatten(j, osv))),
        decreases ototal - p,
    {
        let oidx = index_of_flat(p, out_shape);
        let ghost o = unflatten(p as int, osv);
        let mut point: Vec<usize> = Vec::new();
        let mut ax: usize = 0;
        while ax < n
            invariant
                ax <= n,
                n == mapping@.len(),
                to_ints(oidx@) == o,
                in_bounds(o, osv),
                osv == to_ints(out_shape@),
                mv == to_ints(mapping@),
                forall|a: int| 0 <= a < n ==> (#[trigger] mapping@[a]) < out_shape@.len(),
                point@.len() == ax,
                forall|a: int|
                    0 <= a < ax ==> #[trigger] point@[a] as int == remap_point(mv, o)[a],
            decreases n - ax,
        {
            point.push(oidx[mapping[ax]]);
            ax += 1;
        }
        proof {
            assert(to_ints(point@) =~= remap_point(mv, o));
            assert forall|a: int| 0 <= a < mv.len() implies 0 <= #[trigger] remap_point(mv, o)[a]
                && remap_point(mv, o)[a] < t@.shape[a] by {
                assert(osv[mapping@[a] as int] == t@.shape[a]);
            }
        }
        let v = t.get(&point);
        data.push(v);
        p += 1;
    }
    let r = Tensor { shape: out_shape.clone(), data };
    proof {
        assert(r@.shape =~= osv);
        assert forall|o: Seq<int>| in_bounds(o, osv) implies #[trigger] r@.at(o) == t@.at(
            remap_point(mv, o),
        ) by {
            lemma_flat_index_bounds(o, osv);
            lemma_flat_unflatten(o, osv);
        }
    }
    r
}

/// Sums away the trailing axes of `t`, keeping the first `kept`.
pub fn sum_trailing(t: &Tensor, kept: usize) -> (r: Tensor)
    requires
        t@.wf(),
        kept as int <= t@.rank(),
        prod_all(t@.shape.take(kept as int)) <= usize::MAX,
    ensures
        r@.wf(),
        r@.shape == t@.shape.take(kept as int),
        forall|o: Seq<int>|
            in_bounds(o, t@.shape.take(kept as int)) ==> #[trigger] r@.at(o) == block_sum(
                t@,
                o,
                prod_all(t@.shape.skip(kept as int)),
            ),
{
    let ghost ksv = t@.shape.take(kept as int);
    let ghost ssv = t@.shape.skip(kept as int);
    proof {
        assert(t@.shape =~= ksv + ssv);
        lemma_prod_all_concat(ksv, ssv);
    }
    let rank = t.rank();
    let dlen = t.num_elements();
    let shape = t.shape_vec();
    let mut kshape: Vec<usize> = Vec::new();
    let mut i: usize = 0;
    while i < kept
        invariant
            i <= kept,
            kept <= shape@.len(),
            to_ints(shape@) == t@.shape,
            kshape@.len() == i,
            forall|j: int| 0 <= j < i ==> #[trigger] kshape@[j] == shape@[j],
        decreases kept - i,
    {
        kshape.push(shape[i]);
        i += 1;
    }
    proof {
        assert(to_ints(kshape@) =~= ksv);
    }
    let mut sshape: Vec<usize> = Vec::new();
    let mut i2: usize = kept;
    while i2 < rank
        invariant
            kept <= i2 <= rank,
            rank == shape@.len(),
            to_ints(shape@) == t@.shape,
            sshape@.len() == i2 - kept,
            forall|j: int| 0 <= j < i2 - kept ==> #[trigger] sshape@[j] == shape@[j + kept],
        decreases rank - i2,
    {
        sshape.push(shape[i2]);
        i2 += 1;
    }
    proof {
        assert(to_ints(sshape@) =~= ssv);
    }
    let ototal = match checked_prod(&kshape) {
        Some(v) => v,
        None => {
            proof {
                assert(false);
            }
            0
        },
    };
    let stotal_opt = checked_prod(&sshape);
    let stotal = match stotal_opt {
        Some(v) => v,
        None => {
            // The trailing block is oversized only when some kept extent is
            // zero, so the result is empty.
            proof {
                lemma_prod_all_nonneg(ksv);
                lemma_prod_all_nonneg(ssv);
                assert(prod_all(ksv) * prod_all(ssv) == prod_all(t@.shape));
                assert(prod_all(t@.shape) == dlen as int);
                if prod_all(ksv) >= 1 {
                    assert(prod_all(ksv) * prod_all(ssv) > usize::MAX) by (nonlinear_arith)
                        requires
                            prod_all(ksv) >= 1,
                            prod_all(ssv) > usize::MAX,
                    ;
                }
                assert(prod_all(ksv) == 0);
            }
            let r = Tensor { shape: kshape, data: Vec::new() };
            proof {
                assert(r@.shape =~= ksv);
                assert forall|o: Seq<int>| in_bounds(o, ksv) implies #[trigger] r@.at(o)
                    == block_sum(t@, o, prod_all(ssv)) by {
                    lemma_in_bounds_extents(o, ksv);
                    lemma_prod_all_pos(ksv);
                }
            }
            return r;
        },
    };
    let mut data: Vec<i64> = Vec::new();
    let mut p: usize = 0;
    while p < ototal
        invariant
            p <= ototal,
            ototal as int == prod_all(ksv),
            stotal as int == prod_all(ssv),
            ksv == t@.shape.take(kept as int),
            ssv == t@.shape.skip(kept as int),
            to_ints(kshape@) == ksv,
            to_ints(sshape@) == ssv,
            t@.wf(),
            kept as int <= t@.rank(),
            data@.len() == p,
            forall|j: int|
                0 <= j < p ==> #[trigger] data@[j] == block_sum(
                    t@,
                    unflatten(j, ksv),
                    prod_all(ssv),
                ),
        decreases ototal - p,
    {
        let oidx = index_of_flat(p, &kshape);
        let ghost o = unflatten(p as int, ksv);
        let mut acc: i64 = 0i64;
        let mut q: usize = 0;
        while q < stotal
            invariant
                q <= stotal,
                stotal as int == prod_all(ssv),
                ksv == t@.shape.take(kept as int),
                ssv == t@.shape.skip(kept as int),
                to_ints(kshape@) == ksv,
                to_ints(sshape@) == ssv,
                t@.wf(),
                kept as int <= t@.rank(),
                to_ints(oidx@) == o,
                oidx@.len() == kept,
                in_bounds(o, ksv),
                acc == block_sum(t@, o, q as int),
            decreases stotal - q,
        {
            let qidx = index_of_flat(q, &sshape);
            let ghost qa = unflatten(q as int, ssv);
            let mut full: Vec<usize> = Vec::new();
            let mut a: usize = 0;
            while a < kept
                invariant
                    a <= kept,
                    oidx@.len() == kept,
                    full@.len() == a,
                    forall|j: int| 0 <= j < a ==> #[trigger] full@[j] == oidx@[j],
                decreases kept - a,
            {
                full.push(oidx[a]);
                a += 1;
            }
            let slen = sshape.len();
            let mut b: usize = 0;
            while b < slen
                invariant
                    b <= slen,
                    slen == qidx@.len(),
                    oidx@.len() == kept,
                    full@.len() == kept + b,
                    forall|j: int| 0 <= j < kept ==> #[trigger] full@[j] == oidx@[j],
                    forall|j: int|
                        0 <= j < b ==> #[trigger] full@[kept + j] == qidx@[j],
                decreases slen - b,
            {
                full.push(qidx[b]);
                b += 1;
            }
            proof {
                assert(to_ints(full@).len() == (o + qa).len());
                assert forall|j: int| 0 <= j < to_ints(full@).len() implies to_ints(full@)[j] == (o
                    + qa)[j] by {
                    if j < kept {
                        assert(full@[j] == oidx@[j]);
                    } else {
                        assert(full@[kept + (j - kept)] == qidx@[j - kept]);
                    }
                }
                assert(to_ints(full@) =~= o + qa);
                assert(t@.shape =~= ksv + ssv);
                assert(in_bounds(o + qa, t@.shape)) by {
                    assert forall|j: int| 0 <= j < (o + qa).len() implies 0 <= #[trigger] (o
                        + qa)[j] && (o + qa)[j] < t@.shape[j] by {
                        if j < o.len() {
                            assert((o + qa)[j] == o[j]);
                        } else {
                            assert((o + qa)[j] == qa[j - o.len()]);
                        }
                    }
                }
                assert(o.len() == kept as int);
            }
            let v = t.get(&full);
            acc = acc.wrapping_add(v);
            q += 1;
        }
        data.push(acc);
        p += 1;
    }
    let r = Tensor { shape: kshape, data };
    proof {
        assert(r@.shape =~= ksv);
        assert forall|o: Seq<int>| in_bounds(o, ksv) implies #[trigger] r@.at(o) == block_sum(
            t@,
            o,
            prod_all(ssv),
        ) by {
            lemma_flat_index_bounds(o, ksv);
            lemma_flat_unflatten(o, ksv);
        }
    }
    r
}

/// For each input axis, the output axis that carries its label in `merged`.
pub open spec fn merge_mapping(labels: Seq<char>, merged: Seq<char>) -> Seq<int> {
    Seq::new(labels.len(), |ax: int| idxof(merged, labels[ax]))
}

/// Concatenating two distinct, disjoint label lists keeps them distinct.
pub proof fn lemma_distinct_concat(a: Seq<char>, b: Seq<char>)
    requires
        distinct_chars(a),
        distinct_chars(b),
        forall|c: char| #[trigger] b.contains(c) ==> !a.contains(c),
    ensures
        distinct_chars(a + b),
{
    let m = a + b;
    assert forall|i: int, j: int| 0 <= i < j < m.len() implies #[trigger] m[i] != (
    #[trigger] m[j]) by {
        if j >= a.len() {
            assert(b.contains(b[j - a.len()]));
            if i >= a.len() {
                assert(m[i] == b[i - a.len()]);
            } else {
                assert(a.contains(a[i]));
            }
        }
    }
}

/// Each resolved label points at a position of the merged list that carries
/// it.
pub proof fn lemma_merge_mapping_bounds(labels: Seq<char>, output: Seq<char>, summed: Seq<char>)
    requires
        labels_resolved(labels, output, summed),
        distinct_chars(output),
        distinct_chars(summed),
        forall|c: char| #[trigger] summed.contains(c) ==> !output.contains(c),
    ensures
        forall|ax: int|
            0 <= ax < labels.len() ==> 0 <= #[trigger] merge_mapping(labels, output + summed)[ax]
                && merge_mapping(labels, output + summed)[ax] < output.len() + summed.len()
                && (output + summed)[merge_mapping(labels, output + summed)[ax]] == labels[ax],
{
    let m = output + summed;
    lemma_distinct_concat(output, summed);
    assert forall|ax: int| 0 <= ax < labels.len() implies 0 <= #[trigger] merge_mapping(labels, m)[ax]
        && merge_mapping(labels, m)[ax] < m.len() && m[merge_mapping(labels, m)[ax]]
        == labels[ax] by {
        let c = labels[ax];
        if output.contains(c) {
            let j = choose|j: int| 0 <= j < output.len() && output[j] == c;
            assert(m[j] == c);
            assert(m.contains(c));
        } else {
            assert(summed.contains(c));
            let j = choose|j: int| 0 <= j < summed.len() && summed[j] == c;
            assert(m[output.len() + j] == c);
            assert(m.contains(c));
        }
        assert(0 <= idxof(m, c) < m.len() && m[idxof(m, c)] == c);
    }
}

/// Reading the merged tensor at the concatenation of an output assignment and
/// a summed assignment reads the operand exactly where the reference
/// semantics does.
pub proof fn lemma_point_correspondence(
    labels: Seq<char>,
    output: Seq<char>,
    summed: Seq<char>,
    o: Seq<int>,
    q: Seq<int>,
)
    requires
        labels_resolved(labels, output, summed),
        distinct_chars(output),
        distinct_chars(summed),
        forall|c: char| #[trigger] summed.contains(c) ==> !output.contains(c),
        o.len() == output.len(),
        q.len() == summed.len(),
    ensures
        remap_point(merge_mapping(labels, output + summed), o + q) == operand_point(
            labels,
            output,
            o,
            summed,
            q,
        ),
{
    let m = output + summed;
    lemma_distinct_concat(output, summed);
    let lhs = remap_point(merge_mapping(labels, m), o + q);
    let rhs = operand_point(labels, output, o, summed, q);
    assert forall|ax: int| 0 <= ax < labels.len() implies lhs[ax] == rhs[ax] by {
        let c = labels[ax];
        if output.contains(c) {
            let j = idxof(output, c);
            assert(0 <= j < output.len() && output[j] == c);
            assert(m[j] == c);
            lemma_idxof_unique(m, c, j);
            assert((o + q)[j] == o[j]);
        } else {
            assert(summed.contains(c));
            let j = idxof(summed, c);
            assert(0 <= j < summed.len() && summed[j] == c);
            assert(m[output.len() + j] == c);
            lemma_idxof_unique(m, c, output.len() + j);
            assert((o + q)[output.len() + j] == q[j]);
        }
    }
    assert(lhs =~= rhs);
}

/// Summing the trailing block of the merged tensor computes the reference
/// cell sum, term for term.
pub proof fn lemma_block_sum_is_cell(
    m: ContractionModel,
    t: TensorModel,
    mid: TensorModel,
    o: Seq<int>,
    j: int,
)
    requires
        m.wf(),
        m.operands.len() == 1,
        mid.shape == sizes_of_seq(m.output, m.sizes) + sizes_of_seq(m.summed, m.sizes),
        forall|x: Seq<int>|
            in_bounds(x, mid.shape) ==> #[trigger] mid.at(x) == t.at(
                remap_point(merge_mapping(m.operands[0], m.output + m.summed), x),
            ),
        in_bounds(o, sizes_of_seq(m.output, m.sizes)),
        0 <= j <= prod_all(sizes_of_seq(m.summed, m.sizes)),
    ensures
        block_sum(mid, o, j) == sum_value(
            seq![t],
            m.operands,
            m.output,
            o,
            m.summed,
            sizes_of_seq(m.summed, m.sizes),
            j,
        ),
    decreases j,
{
    let osz = sizes_of_seq(m.output, m.sizes);
    let ssz = sizes_of_seq(m.summed, m.sizes);
    lemma_wf_classification(m);
    if j > 0 {
        lemma_block_sum_is_cell(m, t, mid, o, j - 1);
        assert forall|i: int| 0 <= i < ssz.len() implies 0 <= #[trigger] ssz[i] by {
            assert(m.summed.contains(m.summed[i]));
        }
        lemma_unflatten_works(j - 1, ssz);
        let qa = unflatten(j - 1, ssz);
        assert(mid.shape.skip(o.len() as int) =~= ssz);
        assert(in_bounds(o + qa, mid.shape)) by {
            assert forall|i: int| 0 <= i < (o + qa).len() implies 0 <= #[trigger] (o + qa)[i] && (o
                + qa)[i] < mid.shape[i] by {
                if i < o.len() {
                    assert((o + qa)[i] == o[i]);
                } else {
                    assert((o + qa)[i] == qa[i - o.len()]);
                }
            }
        }
        assert(mid.at(o + qa) == t.at(
            remap_point(merge_mapping(m.operands[0], m.output + m.summed), o + qa),
        ));
        lemma_point_correspondence(m.operands[0], m.output, m.summed, o, qa);
        let pt = operand_point(m.operands[0], m.output, o, m.summed, qa);
        assert(seq![t][0] == t);
        assert(term_value(seq![t], m.operands, m.output, o, m.summed, qa, 0) == 1i64);
        assert(term_value(seq![t], m.operands, m.output, o, m.summed, qa, 1) == wmul(
            1i64,
            t.at(pt),
        ));
        lemma_wmul_one(t.at(pt));
    }
}

/// Plans the merged axis order for one operand: the merged label list
/// (output labels, then summed labels), the input-axis to merged-axis
/// mapping, and the merged shape.
fn plan_singleton(sc: &SizedContraction) -> (r: (Vec<usize>, Vec<usize>))
    requires
        sc.wf(),
        sc@.operands.len() == 1,
    ensures
        to_ints(r.0@) == merge_mapping(sc@.operands[0], sc@.output + sc@.summed),
        r.0@.len() == sc@.operands[0].len(),
        to_ints(r.1@) == sizes_of_seq(sc@.output, sc@.sizes) + sizes_of_seq(
            sc@.summed,
            sc@.sizes,
        ),
{
    let ghost m = sc@;
    proof {
        lemma_wf_classification(m);
        lemma_distinct_concat(m.output, m.summed);
        lemma_merge_mapping_bounds(m.operands[0], m.output, m.summed);
    }
    let mut merged: Vec<char> = Vec::new();
    let olen = sc.contraction.output_indices.len();
    let mut i: usize = 0;
    while i < olen
        invariant
            i <= olen,
            olen == m.output.len(),
            m == sc@,
            merged@.len() == i,
            forall|j: int| 0 <= j < i ==> #[trigger] merged@[j] == m.output[j],
        decreases olen - i,
    {
        merged.push(sc.contraction.output_indices[i]);
        i += 1;
    }
    let slen = sc.contraction.summed_indices.len();
    let mut k: usize = 0;
    while k < slen
        invariant
            k <= slen,
            slen == m.summed.len(),
            olen == m.output.len(),
            m == sc@,
            merged@.len() == olen + k,
            forall|j: int| 0 <= j < olen ==> #[trigger] merged@[j] == m.output[j],
            forall|j: int| 0 <= j < k ==> #[trigger] merged@[olen + j] == m.summed[j],
        decreases slen - k,
    {
        merged.push(sc.contraction.summed_indices[k]);
        k += 1;
    }
    proof {
        assert(merged@.len() == (m.output + m.summed).len());
        assert forall|j: int| 0 <= j < merged@.len() implies merged@[j] == (m.output + m.summed)[j]
            by {
            if j < olen {
                assert(merged@[j] == m.output[j]);
            } else {
                assert(merged@[olen + (j - olen)] == m.summed[j - olen]);
            }
        }
        assert(merged@ =~= m.output + m.summed);
        lemma_wf_classification(m);
        lemma_distinct_concat(m.output, m.summed);
    }
    let labels = &sc.contraction.operand_indices[0];
    let n = labels.len();
    let mut mapping: Vec<usize> = Vec::new();
    let mut ax: usize = 0;
    while ax < n
        invariant
            ax <= n,
            n == m.operands[0].len(),
            m == sc@,
            sc.wf(),
            labels@ == sc.contraction.operand_indices@[0]@,
            labels@ == m.operands[0],
            merged@ == m.output + m.summed,
            distinct_chars(merged@),
            labels_resolved(m.operands[0], m.output, m.summed),
            mapping@.len() == ax,
            forall|a: int|
                0 <= a < ax ==> #[trigger] mapping@[a] as int == merge_mapping(
                    m.operands[0],
                    m.output + m.summed,
                )[a],
        decreases n - ax,
    {
        let c = labels[ax];
        proof {
            lemma_wf_classification(m);
            lemma_distinct_concat(m.output, m.summed);
            lemma_merge_mapping_bounds(m.operands[0], m.output, m.summed);
            assert(merged@[merge_mapping(m.operands[0], merged@)[ax as int]] == c);
        }
        match position_of(&merged, c) {
            Some(pos) => {
                proof {
                    lemma_idxof_unique(merged@, c, pos as int);
                    assert(merged@.contains(c)) by {
                        assert(merged@[pos as int] == c);
                    }
                }
                mapping.push(pos);
            },
            None => {
                proof {
                    assert(merged@.contains(c)) by {
                        assert(merged@[merge_mapping(m.operands[0], merged@)[ax as int]] == c);
                    }
                    assert(false);
                }
            },
        }
        ax += 1;
    }
    proof {
        lemma_wf_classification(m);
        assert forall|j: int| 0 <= j < merged@.len() implies m.sizes.contains_key(
            #[trigger] merged@[j],
        ) by {
            if j < m.output.len() {
                assert(m.output.contains(merged@[j])) by {
                    assert(merged@[j] == m.output[j]);
                }
            } else {
                assert(m.summed.contains(merged@[j])) by {
                    assert(merged@[j] == m.summed[j - m.output.len()]);
                }
            }
        }
    }
    let mid_shape = shape_of_labels(sc, &merged);
    proof {
        assert(to_ints(mapping@) =~= merge_mapping(m.operands[0], m.output + m.summed));
        assert(sizes_of_seq(merged@, m.sizes) =~= sizes_of_seq(m.output, m.sizes) + sizes_of_seq(
            m.summed,
            m.sizes,
        ));
    }
    (mapping, mid_shape)
}

/// Applies the composed permute-diagonalize-sum pipeline for one operand and
/// proves the result equal to the reference contraction of that operand.
fn singleton_apply(
    t: &Tensor,
    mapping: &Vec<usize>,
    mid_shape: &Vec<usize>,
    kept: usize,
    Ghost(m): Ghost<ContractionModel>,
) -> (r: Tensor)
    requires
        m.wf(),
        m.operands.len() == 1,
        t@.wf(),
        t@.shape == sizes_of_seq(m.operands[0], m.sizes),
        to_ints(mid_shape@) == sizes_of_seq(m.output, m.sizes) + sizes_of_seq(m.summed, m.sizes),
        mapping@.len() == m.operands[0].len(),
        to_ints(mapping@) == merge_mapping(m.operands[0], m.output + m.summed),
        kept as int == m.output.len(),
        prod_all(to_ints(mid_shape@)) <= usize::MAX,
        prod_all(sizes_of_seq(m.output, m.sizes)) <= usize::MAX,
    ensures
        r@ == einsum_model(m, seq![t@]),
        r@.wf(),
{
    let ghost osz = sizes_of_seq(m.output, m.sizes);
    let ghost ssz = sizes_of_seq(m.summed, m.sizes);
    let ghost msz = osz + ssz;
    proof {
        lemma_wf_classification(m);
        lemma_plan_remap_preconditions(m, mapping@, mid_shape@, t@);
    }
    let mid = remap_tensor(t, mapping, mid_shape);
    proof {
        assert(mid@.shape.take(kept as int) =~= osz);
        assert(mid@.shape.skip(kept as int) =~= ssz);
    }
    let r = sum_trailing(&mid, kept);
    proof {
        let goal = einsum_model(m, seq![t@]);
        assert(r@.shape =~= osz);
        lemma_prod_all_nonneg(osz);
        assert(r@.data.len() == goal.data.len());
        assert forall|p: int| 0 <= p < r@.data.len() implies r@.data[p] == #[trigger] goal.data[p] by {
            assert forall|i: int| 0 <= i < osz.len() implies 0 <= #[trigger] osz[i] by {
                assert(m.output.contains(m.output[i]));
            }
            assert forall|i: int| 0 <= i < ssz.len() implies 0 <= #[trigger] ssz[i] by {
                assert(m.summed.contains(m.summed[i]));
            }
            lemma_prod_all_nonneg(ssz);
            lemma_unflatten_works(p, osz);
            let o = unflatten(p, osz);
            assert(r@.at(o) == block_sum(mid@, o, prod_all(ssz)));
            lemma_block_sum_is_cell(m, t@, mid@, o, prod_all(ssz));
            assert(r@.at(o) == cell_value(m, seq![t@], o));
            assert(r@.at(o) == r@.data[p]);
        }
        assert(r@.data =~= goal.data);
    }
    r
}

/// A one-operand operator that re-indexes its input without summing. Such a
/// result could be a zero-copy view over the input's buffer; this dense
/// engine materialises it.
pub trait SingletonViewer {
    spec fn view_req(&self, t: TensorModel) -> bool;

    spec fn view_post(&self, t: TensorModel, r: TensorModel) -> bool;

    fn view_singleton(&self, tensor: &Tensor) -> (r: Tensor)
        requires
            self.view_req(tensor@),
        ensures
            self.view_post(tensor@, r@),
    ;
}

/// A one-operand reduction operator.
pub trait SingletonContractor {
    spec fn contract_req(&self, t: TensorModel) -> bool;

    spec fn contract_post(&self, t: TensorModel, r: TensorModel) -> bool;

    fn contract_singleton(&self, tensor: &Tensor) -> (r: Tensor)
        requires
            self.contract_req(tensor@),
        ensures
            self.contract_post(tensor@, r@),
    ;
}

/// A two-operand contraction operator.
pub trait PairContractor {
    spec fn pair_req(&self, lhs: TensorModel, rhs: TensorModel) -> bool;

    spec fn pair_post(&self, lhs: TensorModel, rhs: TensorModel, r: TensorModel) -> bool;

    fn contract_pair(&self, lhs: &Tensor, rhs: &Tensor) -> (r: Tensor)
        requires
            self.pair_req(lhs@, rhs@),
        ensures
            self.pair_post(lhs@, rhs@, r@),
    ;
}

/// The identity reduction: the output is the input, axis for axis.
pub struct Identity {}

impl Identity {
    pub fn new() -> (r: Identity) {
        Identity {  }
    }
}

impl SingletonViewer for Identity {
    open spec fn view_req(&self, t: TensorModel) -> bool {
        t.wf()
    }

    open spec fn view_post(&self, t: TensorModel, r: TensorModel) -> bool {
        r == t
    }

    fn view_singleton(&self, tensor: &Tensor) -> (r: Tensor) {
        tensor.to_owned()
    }
}

impl SingletonContractor for Identity {
    open spec fn contract_req(&self, t: TensorModel) -> bool {
        t.wf()
    }

    open spec fn contract_post(&self, t: TensorModel, r: TensorModel) -> bool {
        r == t
    }

    fn contract_singleton(&self, tensor: &Tensor) -> (r: Tensor) {
        tensor.to_owned()
    }
}

/// Size bounds under which a one-operand reduction can be materialised.
pub open spec fn singleton_fits(m: ContractionModel) -> bool {
    &&& prod_all(
        sizes_of_seq(m.output, m.sizes) + sizes_of_seq(m.summed, m.sizes),
    ) <= usize::MAX
    &&& prod_all(sizes_of_seq(m.output, m.sizes)) <= usize::MAX
}

/// Validity of a planned one-operand operator against its specification.
pub open spec fn plan_valid(
    m: ContractionModel,
    mapping: Seq<usize>,
    mid_shape: Seq<usize>,
) -> bool {
    &&& m.wf()
    &&& m.operands.len() == 1
    &&& mapping.len() == m.operands[0].len()
    &&& to_ints(mapping) == merge_mapping(m.operands[0], m.output + m.summed)
    &&& to_ints(mid_shape) == sizes_of_seq(m.output, m.sizes) + sizes_of_seq(m.summed, m.sizes)
}

/// A planned re-indexing meets the merged-view kernel's requirements.
proof fn lemma_plan_remap_preconditions(
    m: ContractionModel,
    mapping: Seq<usize>,
    mid_shape: Seq<usize>,
    t: TensorModel,
)
    requires
        plan_valid(m, mapping, mid_shape),
        t.wf(),
        t.shape == sizes_of_seq(m.operands[0], m.sizes),
    ensures
        mapping.len() == t.shape.len(),
        forall|ax: int| 0 <= ax < mapping.len() ==> (#[trigger] mapping[ax]) < mid_shape.len(),
        forall|ax: int|
            0 <= ax < mapping.len() ==> to_ints(mid_shape)[#[trigger] mapping[ax] as int]
                == t.shape[ax],
{
    let osz = sizes_of_seq(m.output, m.sizes);
    let ssz = sizes_of_seq(m.summed, m.sizes);
    let msz = osz + ssz;
    lemma_wf_classification(m);
    lemma_merge_mapping_bounds(m.operands[0], m.output, m.summed);
    assert forall|ax: int| 0 <= ax < mapping.len() implies (#[trigger] mapping[ax])
        < mid_shape.len() by {
        assert(to_ints(mapping)[ax] == merge_mapping(m.operands[0], m.output + m.summed)[ax]);
        assert(merge_mapping(m.operands[0], m.output + m.summed)[ax] < m.output.len()
            + m.summed.len());
        assert(to_ints(mid_shape).len() == m.output.len() + m.summed.len());
    }
    assert forall|ax: int| 0 <= ax < mapping.len() implies to_ints(mid_shape)[#[trigger] mapping[
        ax] as int] == t.shape[ax] by {
        let mm = m.output + m.summed;
        let pos = merge_mapping(m.operands[0], mm)[ax];
        assert(to_ints(mapping)[ax] == pos);
        assert(mm[pos] == m.operands[0][ax]);
        assert(msz[pos] == m.sizes[mm[pos]]) by {
            if pos < osz.len() {
                assert(msz[pos] == osz[pos]);
            } else {
                assert(msz[pos] == ssz[pos - osz.len()]);
            }
        }
    }
}

/// A pure axis permutation: every operand label appears exactly once in the
/// output, nothing is summed.
pub struct Permutation {
    pub mapping: Vec<usize>,
    pub mid_shape: Vec<usize>,
    pub model: Ghost<ContractionModel>,
}

impl Permutation {
    pub open spec fn valid(self) -> bool {
        &&& plan_valid(self.model@, self.mapping@, self.mid_shape@)
        &&& self.model@.summed.len() == 0
        &&& self.model@.operands[0].len() == self.model@.output.len()
    }

    pub fn new(sc: &SizedContraction) -> (r: Permutation)
        requires
            sc.wf(),
            sc@.operands.len() == 1,
            sc@.summed.len() == 0,
            sc@.operands[0].len() == sc@.output.len(),
        ensures
            r.valid(),
            r.model@ == sc@,
    {
        let (mapping, mid_shape) = plan_singleton(sc);
        Permutation { mapping, mid_shape, model: Ghost(sc@) }
    }
}

impl SingletonContractor for Permutation {
    open spec fn contract_req(&self, t: TensorModel) -> bool {
        &&& self.valid()
        &&& t.wf()
        &&& t.shape == sizes_of_seq(self.model@.operands[0], self.model@.sizes)
        &&& singleton_fits(self.model@)
    }

    open spec fn contract_post(&self, t: TensorModel, r: TensorModel) -> bool {
        r == einsum_model(self.model@, seq![t])
    }

    fn contract_singleton(&self, tensor: &Tensor) -> (r: Tensor) {
        let kept = self.mid_shape.len();
        proof {
            assert(to_ints(self.mid_shape@).len() == self.model@.output.len());
        }
        singleton_apply(tensor, &self.mapping, &self.mid_shape, kept, Ghost(self.model@))
    }
}

impl SingletonViewer for Permutation {
    open spec fn view_req(&self, t: TensorModel) -> bool {
        &&& self.valid()
        &&& t.wf()
        &&& t.shape == sizes_of_seq(self.model@.operands[0], self.model@.sizes)
        &&& singleton_fits(self.model@)
    }

    open spec fn view_post(&self, t: TensorModel, r: TensorModel) -> bool {
        &&& r.wf()
        &&& r.shape == to_ints(self.mid_shape@)
        &&& forall|o: Seq<int>|
            in_bounds(o, to_ints(self.mid_shape@)) ==> #[trigger] r.at(o) == t.at(
                remap_point(to_ints(self.mapping@), o),
            )
    }

    fn view_singleton(&self, tensor: &Tensor) -> (r: Tensor) {
        proof {
            lemma_plan_remap_preconditions(self.model@, self.mapping@, self.mid_shape@, tensor@);
        }
        remap_tensor(tensor, &self.mapping, &self.mid_shape)
    }
}

/// Diagonal extraction: a label occurs on several operand axes, which are
/// merged into the single output axis carrying that label.
pub struct Diagonalization {
    pub input_to_output_mapping: Vec<usize>,
    pub output_shape: Vec<usize>,
    pub model: Ghost<ContractionModel>,
}

impl Diagonalization {
    pub open spec fn valid(self) -> bool {
        &&& plan_valid(self.model@, self.input_to_output_mapping@, self.output_shape@)
        &&& self.model@.summed.len() == 0
    }

    pub fn new(sc: &SizedContraction) -> (r: Diagonalization)
        requires
            sc.wf(),
            sc@.operands.len() == 1,
            sc@.summed.len() == 0,
        ensures
            r.valid(),
            r.model@ == sc@,
    {
        let (mapping, mid_shape) = plan_singleton(sc);
        Diagonalization {
            input_to_output_mapping: mapping,
            output_shape: mid_shape,
            model: Ghost(sc@),
        }
    }
}

impl SingletonContractor for Diagonalization {
    open spec fn contract_req(&self, t: TensorModel) -> bool {
        &&& self.valid()
        &&& t.wf()
        &&& t.shape == sizes_of_seq(self.model@.operands[0], self.model@.sizes)
        &&& singleton_fits(self.model@)
    }

    open spec fn contract_post(&self, t: TensorModel, r: TensorModel) -> bool {
        r == einsum_model(self.model@, seq![t])
    }

    fn contract_singleton(&self, tensor: &Tensor) -> (r: Tensor) {
        let kept = self.output_shape.len();
        proof {
            assert(to_ints(self.output_shape@).len() == self.model@.output.len());
        }
        singleton_apply(
            tensor,
            &self.input_to_output_mapping,
            &self.output_shape,
            kept,
            Ghost(self.model@),
        )
    }
}

impl SingletonViewer for Diagonalization {
    open spec fn view_req(&self, t: TensorModel) -> bool {
        &&& self.valid()
        &&& t.wf()
        &&& t.shape == sizes_of_seq(self.model@.operands[0], self.model@.sizes)
        &&& singleton_fits(self.model@)
    }

    open spec fn view_post(&self, t: TensorModel, r: TensorModel) -> bool {
        &&& r.wf()
        &&& r.shape == to_ints(self.output_shape@)
        &&& forall|o: Seq<int>|
            in_bounds(o, to_ints(self.output_shape@)) ==> #[trigger] r.at(o) == t.at(
                remap_point(to_ints(self.input_to_output_mapping@), o),
            )
    }

    fn view_singleton(&self, tensor: &Tensor) -> (r: Tensor) {
        proof {
            lemma_plan_remap_preconditions(
                self.model@,
                self.input_to_output_mapping@,
                self.output_shape@,
                tensor@,
            );
        }
        remap_tensor(tensor, &self.input_to_output_mapping, &self.output_shape)
    }
}

/// Sums away a trailing block of axes.
pub struct Summation {
    pub orig_axis_list: Vec<usize>,
    pub adjusted_axis_list: Vec<usize>,
}

impl Summation {
    pub open spec fn start(self) -> int {
        self.adjusted_axis_list@[0] as int
    }

    pub open spec fn num_summed(self) -> int {
        self.orig_axis_list@.len() as int
    }

    pub open spec fn valid(self) -> bool {
        &&& self.orig_axis_list@.len() >= 1
        &&& self.adjusted_axis_list@.len() == self.orig_axis_list@.len()
        &&& forall|i: int|
            0 <= i < self.orig_axis_list@.len() ==> #[trigger] self.orig_axis_list@[i] as int
                == self.start() + i
        &&& forall|i: int|
            0 <= i < self.adjusted_axis_list@.len() ==> #[trigger] self.adjusted_axis_list@[i] as int
                == self.start()
    }

    pub fn new(start_index: usize, num_summed: usize) -> (r: Summation)
        requires
            num_summed >= 1,
            start_index + num_summed <= usize::MAX,
        ensures
            r.valid(),
            r.start() == start_index,
            r.num_summed() == num_summed,
    {
        let mut orig_axis_list: Vec<usize> = Vec::new();
        let mut adjusted_axis_list: Vec<usize> = Vec::new();
        let mut i: usize = 0;
        while i < num_summed
            invariant
                i <= num_summed,
                start_index + num_summed <= usize::MAX,
                orig_axis_list@.len() == i,
                adjusted_axis_list@.len() == i,
                forall|j: int|
                    0 <= j < i ==> #[trigger] orig_axis_list@[j] as int == start_index + j,
                forall|j: int|
                    0 <= j < i ==> #[trigger] adjusted_axis_list@[j] as int == start_index as int,
            decreases num_summed - i,
        {
            orig_axis_list.push(start_index + i);
            adjusted_axis_list.push(start_index);
            i += 1;
        }
        Summation { orig_axis_list, adjusted_axis_list }
    }
}

impl SingletonContractor for Summation {
    open spec fn contract_req(&self, t: TensorModel) -> bool {
        &&& self.valid()
        &&& t.wf()
        &&& t.rank() == self.start() + self.num_summed()
        &&& prod_all(t.shape.take(self.start())) <= usize::MAX
    }

    open spec fn contract_post(&self, t: TensorModel, r: TensorModel) -> bool {
        &&& r.wf()
        &&& r.shape == t.shape.take(self.start())
        &&& forall|o: Seq<int>|
            in_bounds(o, t.shape.take(self.start())) ==> #[trigger] r.at(o) == block_sum(
                t,
                o,
                prod_all(t.shape.skip(self.start())),
            )
    }

    fn contract_singleton(&self, tensor: &Tensor) -> (r: Tensor) {
        let kept = self.adjusted_axis_list[0];
        sum_trailing(tensor, kept)
    }
}

/// The composed operator: permute (merging any diagonals) into the order
/// output labels then summed labels, and sum away the trailing summed block.
pub struct ViewAndSummation {
    pub mapping: Vec<usize>,
    pub mid_shape: Vec<usize>,
    pub summation: Summation,
    pub model: Ghost<ContractionModel>,
}

impl ViewAndSummation {
    pub open spec fn valid(self) -> bool {
        &&& plan_valid(self.model@, self.mapping@, self.mid_shape@)
        &&& self.model@.summed.len() >= 1
        &&& self.summation.valid()
        &&& self.summation.start() == self.model@.output.len()
        &&& self.summation.num_summed() == self.model@.summed.len()
    }

    pub fn new(sc: &SizedContraction) -> (r: ViewAndSummation)
        requires
            sc.wf(),
            sc@.operands.len() == 1,
            sc@.summed.len() >= 1,
        ensures
            r.valid(),
            r.model@ == sc@,
    {
        let (mapping, mid_shape) = plan_singleton(sc);
        let olen = sc.contraction.output_indices.len();
        let slen = sc.contraction.summed_indices.len();
        let mid_rank = mid_shape.len();
        proof {
            assert(to_ints(mid_shape@).len() == olen + slen);
            assert(mid_rank as int == olen + slen);
        }
        let summation = Summation::new(olen, slen);
        ViewAndSummation { mapping, mid_shape, summation, model: Ghost(sc@) }
    }
}

impl SingletonContractor for ViewAndSummation {
    open spec fn contract_req(&self, t: TensorModel) -> bool {
        &&& self.valid()
        &&& t.wf()
        &&& t.shape == sizes_of_seq(self.model@.operands[0], self.model@.sizes)
        &&& singleton_fits(self.model@)
    }

    open spec fn contract_post(&self, t: TensorModel, r: TensorModel) -> bool {
        r == einsum_model(self.model@, seq![t])
    }

    fn contract_singleton(&self, tensor: &Tensor) -> (r: Tensor) {
        let kept = self.summation.adjusted_axis_list[0];
        singleton_apply(tensor, &self.mapping, &self.mid_shape, kept, Ghost(self.model@))
    }
}

/// The dispatched one-operand reduction: a pure permutation when nothing is
/// summed and nothing repeats, a diagonal extraction when labels repeat, and
/// the composed view-and-sum operator otherwise.
pub enum SingletonOp {
    Permute(Permutation),
    Diagonalize(Diagonalization),
    SumComposed(ViewAndSummation),
}

/// Reduces one tensor to the specification's output labels in a single pass,
/// selected once from the specification.
pub struct SingletonContraction {
    pub op: SingletonOp,
    pub model: Ghost<ContractionModel>,
}

impl SingletonContraction {
    pub open spec fn valid(self) -> bool {
        match self.op {
            SingletonOp::Permute(p) => p.valid() && p.model@ == self.model@,
            SingletonOp::Diagonalize(d) => d.valid() && d.model@ == self.model@,
            SingletonOp::SumComposed(v) => v.valid() && v.model@ == self.model@,
        }
    }

    pub fn new(sc: &SizedContraction) -> (r: SingletonContraction)
        requires
            sc.wf(),
            sc@.operands.len() == 1,
        ensures
            r.valid(),
            r.model@ == sc@,
    {
        if sc.contraction.summed_indices.len() == 0 {
            if sc.contraction.operand_indices[0].len() == sc.contraction.output_indices.len() {
                SingletonContraction {
                    op: SingletonOp::Permute(Permutation::new(sc)),
                    model: Ghost(sc@),
                }
            } else {
                SingletonContraction {
                    op: SingletonOp::Diagonalize(Diagonalization::new(sc)),
                    model: Ghost(sc@),
                }
            }
        } else {
            SingletonContraction {
                op: SingletonOp::SumComposed(ViewAndSummation::new(sc)),
                model: Ghost(sc@),
            }
        }
    }
}

impl SingletonContractor for SingletonContraction {
    open spec fn contract_req(&self, t: TensorModel) -> bool {
        &&& self.valid()
        &&& t.wf()
        &&& t.shape == sizes_of_seq(self.model@.operands[0], self.model@.sizes)
        &&& singleton_fits(self.model@)
    }

    open spec fn contract_post(&self, t: TensorModel, r: TensorModel) -> bool {
        r == einsum_model(self.model@, seq![t])
    }

    fn contract_singleton(&self, tensor: &Tensor) -> (r: Tensor) {
        match &self.op {
            SingletonOp::Permute(p) => p.contract_singleton(tensor),
            SingletonOp::Diagonalize(d) => d.contract_singleton(tensor),
            SingletonOp::SumComposed(v) => v.contract_singleton(tensor),
        }
    }
}

} // verus!

