//! The reference executor: computes every output cell of a contraction
//! directly from its definition.
use vstd::prelude::*;
use crate::contraction::{
    distinct_chars, flat_labels, idxof, lemma_collect_summed_props, lemma_idxof_unique, position_of,
    summed_of, ContractionModel, SizedContraction,
};
use crate::indexing::{
    checked_prod, in_bounds, index_of_flat, lemma_prod_all_nonneg, prod_all, to_ints, unflatten,
};
use crate::semantics::{
    cell_value, coord_of, einsum_model, labels_resolved, lemma_operand_point_in_bounds,
    operand_point, operands_match, sizes_of_seq, sum_value, tensor_views, term_value, wadd, wmul,
};
use crate::tensor::{Tensor, TensorModel};

verus! {

/// Each label of each operand occurs in the concatenation of all operands'
/// labels.
pub proof fn lemma_flat_labels_contains(ops: Seq<Seq<char>>, i: int, j: int)
    requires
        0 <= i < ops.len(),
        0 <= j < ops[i].len(),
    ensures
        flat_labels(ops).contains(ops[i][j]),
    decreases ops.len(),
{
    let fl = flat_labels(ops);
    if i == ops.len() - 1 {
        let base = flat_labels(ops.drop_last());
        assert(fl[base.len() + j] == ops[i][j]);
    } else {
        assert(ops.drop_last()[i] == ops[i]);
        lemma_flat_labels_contains(ops.drop_last(), i, j);
        let base = flat_labels(ops.drop_last());
        let k = choose|k: int| 0 <= k < base.len() && base[k] == ops[i][j];
        assert(fl[k] == ops[i][j]);
    }
}

/// In a well-formed specification every operand label is an output label or a
/// summed label, the summed labels are distinct and disjoint from the output,
/// and every label that occurs anywhere has an extent.
pub proof fn lemma_wf_classification(m: ContractionModel)
    requires
        m.wf(),
    ensures
        distinct_chars(m.summed),
        forall|c: char| #[trigger] m.summed.contains(c) ==> !m.output.contains(c),
        forall|c: char| #[trigger] m.summed.contains(c) ==> m.sizes.contains_key(c),
        forall|c: char| #[trigger] m.output.contains(c) ==> m.sizes.contains_key(c),
        forall|i: int|
            0 <= i < m.operands.len() ==> labels_resolved(#[trigger] m.operands[i], m.output, m.summed),
        forall|i: int, j: int|
            0 <= i < m.operands.len() && 0 <= j < m.operands[i].len() ==> m.sizes.contains_key(
                #[trigger] m.operands[i][j],
            ),
{
    let fl = flat_labels(m.operands);
    lemma_collect_summed_props(fl, m.output, Seq::empty());
    assert(m.summed == summed_of(m.operands, m.output));
    assert forall|i: int, j: int|
        0 <= i < m.operands.len() && 0 <= j < m.operands[i].len() implies m.sizes.contains_key(
        #[trigger] m.operands[i][j],
    ) by {
        lemma_flat_labels_contains(m.operands, i, j);
    }
    assert forall|i: int| 0 <= i < m.operands.len() implies labels_resolved(
        #[trigger] m.operands[i],
        m.output,
        m.summed,
    ) by {
        assert forall|ax: int| 0 <= ax < m.operands[i].len() implies m.output.contains(
            #[trigger] m.operands[i][ax],
        ) || m.summed.contains(m.operands[i][ax]) by {
            lemma_flat_labels_contains(m.operands, i, ax);
        }
    }
}

/// The extents of the listed labels, read off the size mapping.
pub fn shape_of_labels(sc: &SizedContraction, labels: &Vec<char>) -> (r: Vec<usize>)
    requires
        sc.wf(),
        forall|j: int| 0 <= j < labels@.len() ==> sc@.sizes.contains_key(#[trigger] labels@[j]),
    ensures
        to_ints(r@) == sizes_of_seq(labels@, sc@.sizes),
{
    let n = labels.len();
    let mut r: Vec<usize> = Vec::new();
    let mut i: usize = 0;
    while i < n
        invariant
            i <= n,
            n == labels@.len(),
            sc.wf(),
            forall|j: int| 0 <= j < labels@.len() ==> sc@.sizes.contains_key(#[trigger] labels@[j]),
            r@.len() == i,
            forall|j: int| 0 <= j < i ==> #[trigger] r@[j] as int == sc@.sizes[labels@[j]],
        decreases n - i,
    {
        let s = sc.size_of(labels[i]);
        r.push(s);
        i += 1;
    }
    proof {
        assert(to_ints(r@) =~= sizes_of_seq(labels@, sc@.sizes));
    }
    r
}

/// The multi-index at which one operand is read, assembled from the output
/// assignment and the summed assignment.
fn operand_point_exec(
    labels: &Vec<char>,
    output: &Vec<char>,
    oidx: &Vec<usize>,
    summed: &Vec<char>,
    qidx: &Vec<usize>,
) -> (r: Vec<usize>)
    requires
        distinct_chars(output@),
        distinct_chars(summed@),
        forall|c: char| #[trigger] summed@.contains(c) ==> !output@.contains(c),
        oidx@.len() == output@.len(),
        qidx@.len() == summed@.len(),
        labels_resolved(labels@, output@, summed@),
    ensures
        to_ints(r@) == operand_point(labels@, output@, to_ints(oidx@), summed@, to_ints(qidx@)),
{
    let ghost goal = operand_point(labels@, output@, to_ints(oidx@), summed@, to_ints(qidx@));
    let n = labels.len();
    let mut r: Vec<usize> = Vec::new();
    let mut i: usize = 0;
    while i < n
        invariant
            i <= n,
            n == labels@.len(),
            distinct_chars(output@),
            distinct_chars(summed@),
            forall|c: char| #[trigger] summed@.contains(c) ==> !output@.contains(c),
            oidx@.len() == output@.len(),
            qidx@.len() == summed@.len(),
            labels_resolved(labels@, output@, summed@),
            goal == operand_point(labels@, output@, to_ints(oidx@), summed@, to_ints(qidx@)),
            r@.len() == i,
            forall|j: int| 0 <= j < i ==> #[trigger] r@[j] as int == goal[j],
        decreases n - i,
    {
        let c = labels[i];
        match position_of(output, c) {
            Some(pos) => {
                proof {
                    assert(output@.contains(c));
                    lemma_idxof_unique(output@, c, pos as int);
                }
                r.push(oidx[pos]);
            },
            None => {
                proof {
                    assert(output@.contains(labels@[i as int]) || summed@.contains(
                        labels@[i as int],
                    ));
                }
                match position_of(summed, c) {
                    Some(pos) => {
                        proof {
                            assert(summed@.contains(c));
                            lemma_idxof_unique(summed@, c, pos as int);
                        }
                        r.push(qidx[pos]);
                    },
                    None => {
                        proof {
                            assert(false);
                        }
                    },
                }
            },
        }
        i += 1;
    }
    proof {
        assert(to_ints(r@) =~= goal);
    }
    r
}

impl SizedContraction {
    /// Executes the contraction on the given operands, producing the output
    /// tensor cell for cell as the reference semantics defines it.
    pub fn contract_operands(&self, operands: &Vec<Tensor>) -> (r: Tensor)
        requires
            self.wf(),
            operands_match(self@, tensor_views(operands@)),
            prod_all(sizes_of_seq(self@.output, self@.sizes)) <= usize::MAX,
            prod_all(sizes_of_seq(self@.summed, self@.sizes)) <= usize::MAX,
        ensures
            r@ == einsum_model(self@, tensor_views(operands@)),
            r@.wf(),
    {
        let ghost m = self@;
        let ghost tens = tensor_views(operands@);
        proof {
            lemma_wf_classification(m);
            assert forall|j: int| 0 <= j < m.output.len() implies m.sizes.contains_key(
                #[trigger] m.output[j],
            ) by {
                assert(m.output.contains(m.output[j]));
            }
            assert forall|j: int| 0 <= j < m.summed.len() implies m.sizes.contains_key(
                #[trigger] m.summed[j],
            ) by {
                assert(m.summed.contains(m.summed[j]));
            }
        }
        let oshape = shape_of_labels(self, &self.contraction.output_indices);
        let sshape = shape_of_labels(self, &self.contraction.summed_indices);
        let ghost osz = sizes_of_seq(m.output, m.sizes);
        let ghost ssz = sizes_of_seq(m.summed, m.sizes);
        proof {
            lemma_prod_all_nonneg(osz);
            lemma_prod_all_nonneg(ssz);
        }
        let ototal = match checked_prod(&oshape) {
            Some(v) => v,
            None => {
                proof {
                    assert(false);
                }
                0
            },
        };
        let stotal = match checked_prod(&sshape) {
            Some(v) => v,
            None => {
                proof {
                    assert(false);
                }
                0
            },
        };
        let n_ops = operands.len();
        let mut data: Vec<i64> = Vec::new();
        let mut p: usize = 0;
        while p < ototal
            invariant
                p <= ototal,
                self.wf(),
                m == self@,
                tens == tensor_views(operands@),
                operands_match(m, tens),
                n_ops == operands@.len(),
                to_ints(oshape@) == osz,
                to_ints(sshape@) == ssz,
                osz == sizes_of_seq(m.output, m.sizes),
                ssz == sizes_of_seq(m.summed, m.sizes),
                ototal as int == prod_all(osz),
                stotal as int == prod_all(ssz),
                data@.len() == p,
                forall|j: int|
                    0 <= j < p ==> #[trigger] data@[j] == cell_value(m, tens, unflatten(j, osz)),
            decreases ototal - p,
        {
            let oidx = index_of_flat(p, &oshape);
            let ghost o = unflatten(p as int, osz);
            let mut acc: i64 = 0i64;
            let mut q: usize = 0;
            while q < stotal
                invariant
                    q <= stotal,
                    self.wf(),
                    m == self@,
                    tens == tensor_views(operands@),
                    operands_match(m, tens),
                    n_ops == operands@.len(),
                    to_ints(oshape@) == osz,
                    to_ints(sshape@) == ssz,
                    osz == sizes_of_seq(m.output, m.sizes),
                    ssz == sizes_of_seq(m.summed, m.sizes),
                    stotal as int == prod_all(ssz),
                    to_ints(oidx@) == o,
                    in_bounds(o, osz),
                    acc == sum_value(tens, m.operands, m.output, o, m.summed, ssz, q as int),
                decreases stotal - q,
            {
                let qidx = index_of_flat(q, &sshape);
                let ghost qa = unflatten(q as int, ssz);
                let mut t: i64 = 1i64;
                let mut k: usize = 0;
                while k < n_ops
                    invariant
                        k <= n_ops,
                        self.wf(),
                        m == self@,
                        tens == tensor_views(operands@),
                        operands_match(m, tens),
                        n_ops == operands@.len(),
                        to_ints(oidx@) == o,
                        to_ints(qidx@) == qa,
                        in_bounds(o, osz),
                        in_bounds(qa, ssz),
                        osz == sizes_of_seq(m.output, m.sizes),
                        ssz == sizes_of_seq(m.summed, m.sizes),
                        t == term_value(tens, m.operands, m.output, o, m.summed, qa, k as int),
                    decreases n_ops - k,
                {
                    proof {
                        lemma_wf_classification(m);
                        assert(m.operands[k as int] == self.contraction.operand_indices@[k as int]@);
                    }
                    let point = operand_point_exec(
                        &self.contraction.operand_indices[k],
                        &self.contraction.output_indices,
                        &oidx,
                        &self.contraction.summed_indices,
                        &qidx,
                    );
                    proof {
                        lemma_operand_point_in_bounds(
                            m.operands[k as int],
                            m.output,
                            o,
                            m.summed,
                            qa,
                            m.sizes,
                        );
                        assert(tens[k as int] == operands@[k as int]@);
                    }
                    let v = operands[k].get(&point);
                    t = t.wrapping_mul(v);
                    k += 1;
                }
                acc = acc.wrapping_add(t);
                q += 1;
            }
            data.push(acc);
            p += 1;
        }
        let r = Tensor { shape: oshape, data };
        proof {
            assert(r@.shape == osz);
            assert(r@.data =~= einsum_model(m, tens).data);
            assert(r@ == einsum_model(m, tens));
        }
        r
    }
}

} // verus!
