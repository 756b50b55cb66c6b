//! A verified Einstein-summation tensor contraction engine.
//!
//! Tensors are dense row-major arrays of `i64` elements; all arithmetic is
//! performed in the ring of 64-bit integers (wrapping on overflow).
use vstd::prelude::*;

mod contraction;
mod contractors;
mod engine;
mod indexing;
mod laws;
mod optimizers;
mod paths;
mod semantics;
mod tensor;
mod tensordot;
mod validation;

pub use contraction::{Contraction, ContractionModel, SizedContraction};
pub use contractors::{
    block_sum, merge_mapping, remap_point, Diagonalization, Identity, PairContractor, Permutation,
    SingletonContraction, SingletonContractor, SingletonOp, SingletonViewer, Summation,
    ViewAndSummation,
};
pub use indexing::{checked_prod, flat_of_index, index_of_flat};
pub use laws::{
    all_axes, dot_all, lemma_contract_deterministic, lemma_diagonal, lemma_full_sum, lemma_matmul,
    lemma_outer_product, lemma_pair_order_irrelevant, lemma_scalar_dot, lemma_transpose,
    matmul_cell, sum_data,
};
pub use optimizers::{generate_optimized_order, OptimizationMethod};
pub use paths::{
    apply_step, contract_path, run_steps, step_ok, steps_ok, ContractionOrder, EinsumPath,
    PairStep,
};
pub use semantics::{cell_value, einsum_model, operands_match, tensor_views, wadd, wmul};
pub use validation::{check_wf, compute_summed};
pub use tensor::{EinsumError, Tensor, TensorModel};
pub use tensordot::{
    free_axes, gather, pair_sum, tensordot, tensordot_fits, tensordot_model, tensordot_shape,
    valid_axes, TensordotGeneral,
};

verus! {

/// Contracts the operands as the specification directs. The result holds, in
/// row-major order over the output labels' extents, the value the reference
/// semantics assigns to every output cell. A single operand is reduced by the
/// composed permute-diagonalize-sum operator where its merged intermediate is
/// representable; everything else runs through the reference executor.
pub fn einsum_sc(sized_contraction: &SizedContraction, operands: &Vec<Tensor>) -> (r: Tensor)
    requires
        sized_contraction.wf(),
        operands_match(sized_contraction@, tensor_views(operands@)),
        indexing::prod_all(
            semantics::sizes_of_seq(sized_contraction@.output, sized_contraction@.sizes),
        ) <= usize::MAX,
        indexing::prod_all(
            semantics::sizes_of_seq(sized_contraction@.summed, sized_contraction@.sizes),
        ) <= usize::MAX,
    ensures
        r@ == einsum_model(sized_contraction@, tensor_views(operands@)),
        r@.wf(),
{
    let ghost m = sized_contraction@;
    let ghost osz = semantics::sizes_of_seq(m.output, m.sizes);
    let ghost ssz = semantics::sizes_of_seq(m.summed, m.sizes);
    if sized_contraction.contraction.operand_indices.len() == 1 {
        proof {
            engine::lemma_wf_classification(m);
            assert forall|j: int| 0 <= j < m.output.len() implies m.sizes.contains_key(
                #[trigger] m.output[j],
            ) by {
                assert(m.output.contains(m.output[j]));
            }
            assert forall|j: int| 0 <= j < m.summed.len() implies m.sizes.contains_key(
                #[trigger] m.summed[j],
            ) by {
                assert(m.summed.contains(m.summed[j]));
            }
        }
        let oshape = engine::shape_of_labels(
            sized_contraction,
            &sized_contraction.contraction.output_indices,
        );
        let sshape = engine::shape_of_labels(
            sized_contraction,
            &sized_contraction.contraction.summed_indices,
        );
        proof {
            indexing::lemma_prod_all_nonneg_from_usize(oshape@);
            indexing::lemma_prod_all_nonneg_from_usize(sshape@);
            indexing::lemma_prod_all_concat(osz, ssz);
        }
        let ototal = match checked_prod(&oshape) {
            Some(v) => v,
            None => {
                proof {
                    assert(false);
                }
                0
            },
        };
        let stotal = match checked_prod(&sshape) {
            Some(v) => v,
            None => {
                proof {
                    assert(false);
                }
                0
            },
        };
        if ototal.checked_mul(stotal).is_some() {
            let ghost tens = tensor_views(operands@);
            proof {
                assert(tens[0] == operands@[0]@);
                assert(contractors::singleton_fits(m));
            }
            let op = SingletonContraction::new(sized_contraction);
            let r = contractors::SingletonContractor::contract_singleton(&op, &operands[0]);
            proof {
                assert(seq![operands@[0]@] =~= tens);
            }
            return r;
        }
    }
    sized_contraction.contract_operands(operands)
}

} // verus!
