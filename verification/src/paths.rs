//! The path orchestrator: executes an ordered plan of pairwise contractions,
//! replacing the two consumed operands with their contraction until one
//! tensor remains. Every step is re-validated before it runs, so the result
//! is pinned to the plan's meaning no matter who built the plan.
use vstd::prelude::*;
use crate::contraction::SizedContraction;
use crate::indexing::{checked_prod, prod_all, to_ints};
use crate::semantics::{einsum_model, operands_match, sizes_of_seq, tensor_views};
use crate::tensor::{EinsumError, Tensor, TensorModel};
use crate::validation::check_wf;

verus! {

/// One pairwise step: the two working-list positions it consumes and the
/// two-operand contraction it performs on them.
pub struct PairStep {
    pub lhs_pos: usize,
    pub rhs_pos: usize,
    pub sized_contraction: SizedContraction,
}

/// An ordered plan of pairwise contractions.
pub struct ContractionOrder {
    pub steps: Vec<PairStep>,
}

/// The working list after one step: both consumed slots are removed and the
/// step's result is appended.
pub open spec fn apply_step(step: PairStep, tens: Seq<TensorModel>) -> Seq<TensorModel> {
    tens.remove(step.rhs_pos as int).remove(step.lhs_pos as int).push(
        einsum_model(
            step.sized_contraction@,
            seq![tens[step.lhs_pos as int], tens[step.rhs_pos as int]],
        ),
    )
}

/// The step addresses two distinct live slots, its specification is
/// well-formed and matches the two operands, and its result is representable.
pub open spec fn step_ok(step: PairStep, tens: Seq<TensorModel>) -> bool {
    &&& step.lhs_pos < step.rhs_pos
    &&& (step.rhs_pos as int) < tens.len()
    &&& step.sized_contraction.wf()
    &&& step.sized_contraction@.operands.len() == 2
    &&& operands_match(
        step.sized_contraction@,
        seq![tens[step.lhs_pos as int], tens[step.rhs_pos as int]],
    )
    &&& prod_all(
        sizes_of_seq(step.sized_contraction@.output, step.sized_contraction@.sizes),
    ) <= usize::MAX
    &&& prod_all(
        sizes_of_seq(step.sized_contraction@.summed, step.sized_contraction@.sizes),
    ) <= usize::MAX
}

pub open spec fn steps_ok(steps: Seq<PairStep>, tens: Seq<TensorModel>) -> bool
    decreases steps.len(),
{
    steps.len() == 0 || (step_ok(steps[0], tens) && steps_ok(
        steps.skip(1),
        apply_step(steps[0], tens),
    ))
}

/// The working list after the whole plan.
pub open spec fn run_steps(steps: Seq<PairStep>, tens: Seq<TensorModel>) -> Seq<TensorModel>
    decreases steps.len(),
{
    if steps.len() == 0 {
        tens
    } else {
        run_steps(steps.skip(1), apply_step(steps[0], tens))
    }
}

/// Whether the two extent lists are equal.
fn shapes_equal(a: &Vec<usize>, b: &Vec<usize>) -> (r: bool)
    ensures
        r == (a@ == b@),
{
    let n = a.len();
    if b.len() != n {
        proof {
            assert(a@.len() != b@.len());
        }
        return false;
    }
    let mut i: usize = 0;
    while i < n
        invariant
            i <= n,
            n == a@.len(),
            n == b@.len(),
            forall|j: int| 0 <= j < i ==> #[trigger] a@[j] == b@[j],
        decreases n - i,
    {
        if a[i] != b[i] {
            return false;
        }
        i += 1;
    }
    proof {
        assert(a@ =~= b@);
    }
    true
}

/// Whether `t` matches the shape the specification expects of operand `pos`,
/// including that its buffer holds exactly the right number of elements.
fn operand_matches(sc: &SizedContraction, pos: usize, t: &Tensor) -> (r: bool)
    requires
        sc.wf(),
        (pos as int) < sc@.operands.len(),
    ensures
        r == (t@.wf() && t@.shape == sizes_of_seq(sc@.operands[pos as int], sc@.sizes)),
{
    let ghost m = sc@;
    proof {
        crate::engine::lemma_wf_classification(m);
        assert forall|j: int| 0 <= j < m.operands[pos as int].len() implies m.sizes.contains_key(
            #[trigger] m.operands[pos as int][j],
        ) by {
        }
    }
    let expected = crate::engine::shape_of_labels(sc, &sc.contraction.operand_indices[pos]);
    let tshape = t.shape_vec();
    if !shapes_equal(tshape, &expected) {
        proof {
            if to_ints(tshape@) == to_ints(expected@) {
                crate::indexing::lemma_to_ints_injective(tshape@, expected@);
            }
        }
        return false;
    }
    let total = checked_prod(tshape);
    match total {
        Some(p) => {
            if p == t.num_elements() {
                proof {
                    crate::indexing::lemma_prod_all_nonneg_from_usize(tshape@);
                }
                true
            } else {
                false
            }
        },
        None => {
            let l = t.num_elements();
            false
        },
    }
}

/// Executes a contraction plan: each step is validated, run on the two live
/// slots it names, and its result takes their place. Succeeds exactly when
/// the plan is valid for the given operands and leaves a single tensor.
pub fn contract_path(order: &ContractionOrder, operands: Vec<Tensor>) -> (r: Result<
    Tensor,
    EinsumError,
>)
    ensures
        match r {
            Ok(t) => {
                &&& steps_ok(order.steps@, tensor_views(operands@))
                &&& run_steps(order.steps@, tensor_views(operands@)).len() == 1
                &&& t@ == run_steps(order.steps@, tensor_views(operands@))[0]
            },
            Err(e) => {
                &&& e == EinsumError::InvalidAxes
                &&& !(steps_ok(order.steps@, tensor_views(operands@)) && run_steps(
                    order.steps@,
                    tensor_views(operands@),
                ).len() == 1)
            },
        },
{
    let ghost tens0 = tensor_views(operands@);
    let ghost all = order.steps@;
    let mut work = operands;
    let n_steps = order.steps.len();
    let mut k: usize = 0;
    proof {
        assert(all.skip(0) =~= all);
        assert(all.take(0) =~= Seq::<PairStep>::empty());
    }
    while k < n_steps
        invariant
            k <= n_steps,
            n_steps == all.len(),
            all == order.steps@,
            tens0 == tensor_views(operands@),
            tensor_views(work@) == run_steps(all.take(k as int), tens0),
            steps_ok(all, tens0) <==> steps_ok(all.skip(k as int), tensor_views(work@)),
            steps_ok(all.take(k as int), tens0),
        decreases n_steps - k,
    {
        let ghost cur = tensor_views(work@);
        let step = &order.steps[k];
        proof {
            assert(all.skip(k as int)[0] == all[k as int]);
            assert(all.skip(k as int).skip(1) =~= all.skip(k + 1));
        }
        let valid = step.lhs_pos < step.rhs_pos && step.rhs_pos < work.len() && check_wf(
            &step.sized_contraction,
        ) && step.sized_contraction.contraction.operand_indices.len() == 2;
        if !valid {
            proof {
                assert(!step_ok(all[k as int], cur));
                assert(!steps_ok(all.skip(k as int), cur));
            }
            return Err(EinsumError::InvalidAxes);
        }
        let a_ok = operand_matches(&step.sized_contraction, 0, &work[step.lhs_pos]);
        let b_ok = operand_matches(&step.sized_contraction, 1, &work[step.rhs_pos]);
        proof {
            assert(cur[step.lhs_pos as int] == work@[step.lhs_pos as int]@);
            assert(cur[step.rhs_pos as int] == work@[step.rhs_pos as int]@);
        }
        proof {
            let m = step.sized_contraction@;
            crate::engine::lemma_wf_classification(m);
            assert forall|j: int| 0 <= j < m.output.len() implies m.sizes.contains_key(
                #[trigger] m.output[j],
            ) by {
                assert(m.output.contains(m.output[j]));
            }
            assert forall|j: int| 0 <= j < m.summed.len() implies m.sizes.contains_key(
                #[trigger] m.summed[j],
            ) by {
                assert(m.summed.contains(m.summed[j]));
            }
        }
        let oshape = crate::engine::shape_of_labels(
            &step.sized_contraction,
            &step.sized_contraction.contraction.output_indices,
        );
        let sshape = crate::engine::shape_of_labels(
            &step.sized_contraction,
            &step.sized_contraction.contraction.summed_indices,
        );
        let fits = checked_prod(&oshape).is_some() && checked_prod(&sshape).is_some();
        if !(a_ok && b_ok && fits) {
            proof {
                let pair = seq![cur[step.lhs_pos as int], cur[step.rhs_pos as int]];
                assert(pair.len() == 2);
                if a_ok && b_ok && operands_match(step.sized_contraction@, pair) {
                    crate::indexing::lemma_prod_all_nonneg_from_usize(oshape@);
                    crate::indexing::lemma_prod_all_nonneg_from_usize(sshape@);
                }
                assert(!step_ok(all[k as int], cur));
                assert(!steps_ok(all.skip(k as int), cur));
            }
            return Err(EinsumError::InvalidAxes);
        }
        let b = work.remove(step.rhs_pos);
        let a = work.remove(step.lhs_pos);
        let pair = vec![a, b];
        proof {
            assert(tensor_views(pair@) =~= seq![cur[step.lhs_pos as int], cur[
                step.rhs_pos as int]]);
            assert(operands_match(step.sized_contraction@, tensor_views(pair@)));
        }
        let res = step.sized_contraction.contract_operands(&pair);
        work.push(res);
        proof {
            assert(step_ok(all[k as int], cur));
            assert(tensor_views(work@) =~= apply_step(all[k as int], cur)) by {
                let after = apply_step(all[k as int], cur);
                assert(tensor_views(work@).len() == after.len());
                assert forall|j: int| 0 <= j < after.len() implies tensor_views(work@)[j]
                    == after[j] by {
                    let l = step.lhs_pos as int;
                    let rr = step.rhs_pos as int;
                    if j < after.len() - 1 {
                        assert(cur.remove(rr).remove(l)[j] == if j < l {
                            cur[j]
                        } else if j < rr - 1 {
                            cur[j + 1]
                        } else {
                            cur[j + 2]
                        });
                    }
                }
            }
            assert(all.take(k + 1).drop_last() =~= all.take(k as int));
            assert(all.take(k + 1).last() == all[k as int]);
            lemma_run_steps_snoc(all.take(k + 1), tens0);
            assert(seq![all[k as int]].skip(1) =~= Seq::<PairStep>::empty());
            assert(seq![all[k as int]][0] == all[k as int]);
            assert(run_steps(seq![all[k as int]], cur) == run_steps(
                Seq::<PairStep>::empty(),
                apply_step(all[k as int], cur),
            ));
            assert(run_steps(seq![all[k as int]], cur) == apply_step(all[k as int], cur));
            assert(run_steps(all.take(k + 1), tens0) == apply_step(all[k as int], cur));
            assert(steps_ok(all.take(k + 1), tens0)) by {
                lemma_steps_ok_snoc(all.take(k + 1), tens0);
            }
        }
        k += 1;
    }
    proof {
        assert(all.take(n_steps as int) =~= all);
        assert(all.skip(n_steps as int) =~= Seq::<PairStep>::empty());
    }
    if work.len() == 1 {
        let t = match work.pop() {
            Some(t) => t,
            None => {
                proof {
                    assert(false);
                }
                Tensor::scalar(0)
            },
        };
        proof {
            assert(t@ == run_steps(all, tens0)[0]);
        }
        Ok(t)
    } else {
        Err(EinsumError::InvalidAxes)
    }
}

/// A contraction plan ready to execute.
pub struct EinsumPath {
    pub order: ContractionOrder,
}

impl EinsumPath {
    pub fn new(order: ContractionOrder) -> (r: EinsumPath)
        ensures
            r.order.steps@ == order.steps@,
    {
        EinsumPath { order }
    }

    /// Executes the plan; see `contract_path`.
    pub fn contract_operands(&self, operands: Vec<Tensor>) -> (r: Result<Tensor, EinsumError>)
        ensures
            match r {
                Ok(t) => {
                    &&& steps_ok(self.order.steps@, tensor_views(operands@))
                    &&& run_steps(self.order.steps@, tensor_views(operands@)).len() == 1
                    &&& t@ == run_steps(self.order.steps@, tensor_views(operands@))[0]
                },
                Err(e) => {
                    &&& e == EinsumError::InvalidAxes
                    &&& !(steps_ok(self.order.steps@, tensor_views(operands@)) && run_steps(
                        self.order.steps@,
                        tensor_views(operands@),
                    ).len() == 1)
                },
            },
    {
        contract_path(&self.order, operands)
    }
}

/// Running a plan extended by one step runs the prefix, then the step.
proof fn lemma_run_steps_snoc(steps: Seq<PairStep>, tens: Seq<TensorModel>)
    requires
        steps.len() > 0,
    ensures
        run_steps(steps, tens) == run_steps(
            seq![steps.last()],
            run_steps(steps.drop_last(), tens),
        ),
    decreases steps.len(),
{
    if steps.len() == 1 {
        assert(steps.drop_last() =~= Seq::<PairStep>::empty());
        assert(steps.skip(1) =~= Seq::<PairStep>::empty());
        assert(seq![steps.last()] =~= steps);
    } else {
        lemma_run_steps_snoc(steps.skip(1), apply_step(steps[0], tens));
        assert(steps.skip(1).drop_last() =~= steps.drop_last().skip(1));
        assert(steps.skip(1).last() == steps.last());
        assert(steps.drop_last()[0] == steps[0]);
    }
}

/// A plan extended by a step that is valid after the prefix is valid as a
/// whole, provided the prefix is.
proof fn lemma_steps_ok_snoc(steps: Seq<PairStep>, tens: Seq<TensorModel>)
    requires
        steps.len() > 0,
        steps_ok(steps.drop_last(), tens),
        step_ok(steps.last(), run_steps(steps.drop_last(), tens)),
    ensures
        steps_ok(steps, tens),
    decreases steps.len(),
{
    if steps.len() == 1 {
        assert(steps.skip(1) =~= Seq::<PairStep>::empty());
        assert(steps[0] == steps.last());
        assert(run_steps(steps.drop_last(), tens) == tens) by {
            assert(steps.drop_last() =~= Seq::<PairStep>::empty());
        }
        assert(step_ok(steps[0], tens));
        assert(steps_ok(steps.skip(1), apply_step(steps[0], tens)));
    } else {
        assert(steps.drop_last()[0] == steps[0]);
        assert(steps.drop_last().skip(1) =~= steps.skip(1).drop_last());
        assert(steps.skip(1).last() == steps.last());
        assert(run_steps(steps.drop_last(), tens) == run_steps(
            steps.skip(1).drop_last(),
            apply_step(steps[0], tens),
        ));
        lemma_steps_ok_snoc(steps.skip(1), apply_step(steps[0], tens));
        assert(step_ok(steps[0], tens));
        assert(steps_ok(steps.skip(1), apply_step(steps[0], tens)));
    }
}

} // verus!
