use einsum_core::{Contraction, EinsumError, SizedContraction, Tensor};
use einsum_core::{einsum_sc, tensordot};

fn sized(
    operands: Vec<Vec<char>>,
    output: Vec<char>,
    summed: Vec<char>,
    sizes: Vec<(char, usize)>,
) -> SizedContraction {
    SizedContraction {
        contraction: Contraction {
            operand_indices: operands,
            output_indices: output,
            summed_indices: summed,
        },
        output_size: sizes,
    }
}

fn tensor(shape: Vec<usize>, data: Vec<i64>) -> Tensor {
    Tensor::from_parts(shape, data).unwrap()
}

#[test]
fn matmul_two_by_three() {
    let a = tensor(vec![2, 3], vec![1, 2, 3, 4, 5, 6]);
    let b = tensor(vec![3, 2], vec![7, 8, 9, 10, 11, 12]);
    let sc = sized(
        vec![vec!['i', 'j'], vec!['j', 'k']],
        vec!['i', 'k'],
        vec!['j'],
        vec![('i', 2), ('j', 3), ('k', 2)],
    );
    let r = einsum_sc(&sc, &vec![a, b]);
    assert_eq!(r.shape_vec(), &vec![2, 2]);
    assert_eq!(r.get(&vec![0, 0]), 58);
    assert_eq!(r.get(&vec![0, 1]), 64);
    assert_eq!(r.get(&vec![1, 0]), 139);
    assert_eq!(r.get(&vec![1, 1]), 154);
}

#[test]
fn transpose_two_by_three() {
    let a = tensor(vec![2, 3], vec![1, 2, 3, 4, 5, 6]);
    let sc = sized(
        vec![vec!['i', 'j']],
        vec!['j', 'i'],
        vec![],
        vec![('i', 2), ('j', 3)],
    );
    let r = einsum_sc(&sc, &vec![a]);
    assert_eq!(r.shape_vec(), &vec![3, 2]);
    for i in 0..2usize {
        for j in 0..3usize {
            let a2 = tensor(vec![2, 3], vec![1, 2, 3, 4, 5, 6]);
            assert_eq!(r.get(&vec![j, i]), a2.get(&vec![i, j]));
        }
    }
}

#[test]
fn diagonal_of_square() {
    let a = tensor(vec![3, 3], vec![1, 2, 3, 4, 5, 6, 7, 8, 9]);
    let sc = sized(
        vec![vec!['i', 'i']],
        vec!['i'],
        vec![],
        vec![('i', 3)],
    );
    let r = einsum_sc(&sc, &vec![a]);
    assert_eq!(r.shape_vec(), &vec![3]);
    assert_eq!(r.get(&vec![0]), 1);
    assert_eq!(r.get(&vec![1]), 5);
    assert_eq!(r.get(&vec![2]), 9);
}

#[test]
fn full_summation_to_scalar() {
    let a = tensor(vec![2, 3], vec![1, 2, 3, 4, 5, 6]);
    let sc = sized(
        vec![vec!['i', 'j']],
        vec![],
        vec!['i', 'j'],
        vec![('i', 2), ('j', 3)],
    );
    let r = einsum_sc(&sc, &vec![a]);
    assert_eq!(r.rank(), 0);
    assert_eq!(r.get(&vec![]), 21);
}

#[test]
fn trace_of_square() {
    let a = tensor(vec![3, 3], vec![1, 2, 3, 4, 5, 6, 7, 8, 9]);
    let sc = sized(
        vec![vec!['i', 'i']],
        vec![],
        vec!['i'],
        vec![('i', 3)],
    );
    let r = einsum_sc(&sc, &vec![a]);
    assert_eq!(r.get(&vec![]), 15);
}

#[test]
fn hadamard_product() {
    let a = tensor(vec![2, 2], vec![1, 2, 3, 4]);
    let b = tensor(vec![2, 2], vec![10, 20, 30, 40]);
    let sc = sized(
        vec![vec!['i', 'j'], vec!['i', 'j']],
        vec!['i', 'j'],
        vec![],
        vec![('i', 2), ('j', 2)],
    );
    let r = einsum_sc(&sc, &vec![a, b]);
    assert_eq!(r.get(&vec![0, 0]), 10);
    assert_eq!(r.get(&vec![0, 1]), 40);
    assert_eq!(r.get(&vec![1, 0]), 90);
    assert_eq!(r.get(&vec![1, 1]), 160);
}

#[test]
fn pair_order_does_not_change_result() {
    let a = tensor(vec![2, 2], vec![1, 2, 3, 4]);
    let b = tensor(vec![2, 2], vec![10, 20, 30, 40]);
    let sc1 = sized(
        vec![vec!['i', 'j'], vec!['i', 'j']],
        vec!['i', 'j'],
        vec![],
        vec![('i', 2), ('j', 2)],
    );
    let r1 = einsum_sc(&sc1, &vec![a, b]);
    let a2 = tensor(vec![2, 2], vec![1, 2, 3, 4]);
    let b2 = tensor(vec![2, 2], vec![10, 20, 30, 40]);
    let sc2 = sized(
        vec![vec!['i', 'j'], vec!['i', 'j']],
        vec!['i', 'j'],
        vec![],
        vec![('i', 2), ('j', 2)],
    );
    let r2 = einsum_sc(&sc2, &vec![b2, a2]);
    for i in 0..2usize {
        for j in 0..2usize {
            assert_eq!(r1.get(&vec![i, j]), r2.get(&vec![i, j]));
        }
    }
}

#[test]
fn matmul_pair_order_swap() {
    let a1 = tensor(vec![2, 3], vec![1, 2, 3, 4, 5, 6]);
    let b1 = tensor(vec![3, 2], vec![7, 8, 9, 10, 11, 12]);
    let sc1 = sized(
        vec![vec!['i', 'j'], vec!['j', 'k']],
        vec!['i', 'k'],
        vec!['j'],
        vec![('i', 2), ('j', 3), ('k', 2)],
    );
    let r1 = einsum_sc(&sc1, &vec![a1, b1]);
    let a2 = tensor(vec![2, 3], vec![1, 2, 3, 4, 5, 6]);
    let b2 = tensor(vec![3, 2], vec![7, 8, 9, 10, 11, 12]);
    let sc2 = sized(
        vec![vec!['j', 'k'], vec!['i', 'j']],
        vec!['i', 'k'],
        vec!['j'],
        vec![('i', 2), ('j', 3), ('k', 2)],
    );
    let r2 = einsum_sc(&sc2, &vec![b2, a2]);
    for i in 0..2usize {
        for k in 0..2usize {
            assert_eq!(r1.get(&vec![i, k]), r2.get(&vec![i, k]));
        }
    }
}

#[test]
fn contract_is_idempotent() {
    let a1 = tensor(vec![2, 3], vec![1, 2, 3, 4, 5, 6]);
    let b1 = tensor(vec![3, 2], vec![7, 8, 9, 10, 11, 12]);
    let a2 = tensor(vec![2, 3], vec![1, 2, 3, 4, 5, 6]);
    let b2 = tensor(vec![3, 2], vec![7, 8, 9, 10, 11, 12]);
    let sc = sized(
        vec![vec!['i', 'j'], vec!['j', 'k']],
        vec!['i', 'k'],
        vec!['j'],
        vec![('i', 2), ('j', 3), ('k', 2)],
    );
    let r1 = einsum_sc(&sc, &vec![a1, b1]);
    let r2 = einsum_sc(&sc, &vec![a2, b2]);
    for i in 0..2usize {
        for k in 0..2usize {
            assert_eq!(r1.get(&vec![i, k]), r2.get(&vec![i, k]));
        }
    }
}

#[test]
fn three_operand_chain() {
    // i->j->k->l chain of matrix products, all 2x2.
    let a = tensor(vec![2, 2], vec![1, 2, 3, 4]);
    let b = tensor(vec![2, 2], vec![5, 6, 7, 8]);
    let c = tensor(vec![2, 2], vec![9, 10, 11, 12]);
    let sc = sized(
        vec![vec!['i', 'j'], vec!['j', 'k'], vec!['k', 'l']],
        vec!['i', 'l'],
        vec!['j', 'k'],
        vec![('i', 2), ('j', 2), ('k', 2), ('l', 2)],
    );
    let r = einsum_sc(&sc, &vec![a, b, c]);
    // (A*B)*C with A*B = [[19,22],[43,50]]
    assert_eq!(r.get(&vec![0, 0]), 19 * 9 + 22 * 11);
    assert_eq!(r.get(&vec![0, 1]), 19 * 10 + 22 * 12);
    assert_eq!(r.get(&vec![1, 0]), 43 * 9 + 50 * 11);
    assert_eq!(r.get(&vec![1, 1]), 43 * 10 + 50 * 12);
}

#[test]
fn batch_matmul() {
    // One batch axis shared by both operands and kept in the output.
    let a = tensor(vec![2, 2, 2], vec![1, 2, 3, 4, 5, 6, 7, 8]);
    let b = tensor(vec![2, 2, 2], vec![1, 0, 0, 1, 2, 0, 0, 2]);
    let sc = sized(
        vec![vec!['b', 'i', 'j'], vec!['b', 'j', 'k']],
        vec!['b', 'i', 'k'],
        vec!['j'],
        vec![('b', 2), ('i', 2), ('j', 2), ('k', 2)],
    );
    let r = einsum_sc(&sc, &vec![a, b]);
    // Batch 0: identity leaves [[1,2],[3,4]]; batch 1: doubles [[5,6],[7,8]].
    assert_eq!(r.get(&vec![0, 0, 0]), 1);
    assert_eq!(r.get(&vec![0, 1, 1]), 4);
    assert_eq!(r.get(&vec![1, 0, 0]), 10);
    assert_eq!(r.get(&vec![1, 1, 1]), 16);
}

#[test]
fn summation_wraps_on_overflow() {
    let a = tensor(vec![2], vec![i64::MAX, 1]);
    let sc = sized(vec![vec!['i']], vec![], vec!['i'], vec![('i', 2)]);
    let r = einsum_sc(&sc, &vec![a]);
    assert_eq!(r.get(&vec![]), i64::MIN);
}

#[test]
fn zero_extent_sums_to_zero() {
    let a = tensor(vec![0, 3], vec![]);
    let sc = sized(
        vec![vec!['i', 'j']],
        vec![],
        vec!['i', 'j'],
        vec![('i', 0), ('j', 3)],
    );
    let r = einsum_sc(&sc, &vec![a]);
    assert_eq!(r.get(&vec![]), 0);
}

#[test]
fn tensordot_outer_product() {
    let a = tensor(vec![2], vec![1, 2]);
    let b = tensor(vec![3], vec![10, 20, 30]);
    let r = tensordot(&a, &b, &vec![], &vec![]).unwrap();
    assert_eq!(r.shape_vec(), &vec![2, 3]);
    assert_eq!(r.get(&vec![0, 0]), 10);
    assert_eq!(r.get(&vec![0, 2]), 30);
    assert_eq!(r.get(&vec![1, 1]), 40);
    assert_eq!(r.get(&vec![1, 2]), 60);
}

#[test]
fn tensordot_scalar_dot_product() {
    let a = tensor(vec![2, 2], vec![1, 2, 3, 4]);
    let b = tensor(vec![2, 2], vec![5, 6, 7, 8]);
    let r = tensordot(&a, &b, &vec![0, 1], &vec![0, 1]).unwrap();
    assert_eq!(r.rank(), 0);
    assert_eq!(r.get(&vec![]), 5 + 12 + 21 + 32);
}

#[test]
fn tensordot_matches_matrix_multiplication() {
    let a = tensor(vec![2, 3], vec![1, 2, 3, 4, 5, 6]);
    let b = tensor(vec![3, 2], vec![7, 8, 9, 10, 11, 12]);
    let r = tensordot(&a, &b, &vec![1], &vec![0]).unwrap();
    assert_eq!(r.shape_vec(), &vec![2, 2]);
    assert_eq!(r.get(&vec![0, 0]), 58);
    assert_eq!(r.get(&vec![0, 1]), 64);
    assert_eq!(r.get(&vec![1, 0]), 139);
    assert_eq!(r.get(&vec![1, 1]), 154);
}

#[test]
fn tensordot_rejects_arity_mismatch() {
    let a = tensor(vec![2, 3], vec![1, 2, 3, 4, 5, 6]);
    let b = tensor(vec![3, 2], vec![7, 8, 9, 10, 11, 12]);
    assert_eq!(
        tensordot(&a, &b, &vec![1], &vec![]).unwrap_err(),
        EinsumError::InvalidAxes
    );
}

#[test]
fn tensordot_rejects_out_of_range_axis() {
    let a = tensor(vec![2], vec![1, 2]);
    let b = tensor(vec![2], vec![3, 4]);
    assert_eq!(
        tensordot(&a, &b, &vec![5], &vec![0]).unwrap_err(),
        EinsumError::InvalidAxes
    );
}

#[test]
fn tensordot_rejects_extent_mismatch() {
    let a = tensor(vec![2], vec![1, 2]);
    let b = tensor(vec![3], vec![3, 4, 5]);
    assert_eq!(
        tensordot(&a, &b, &vec![0], &vec![0]).unwrap_err(),
        EinsumError::InvalidAxes
    );
}

#[test]
fn tensordot_rejects_repeated_axis() {
    let a = tensor(vec![2, 2], vec![1, 2, 3, 4]);
    let b = tensor(vec![2, 2], vec![1, 2, 3, 4]);
    assert_eq!(
        tensordot(&a, &b, &vec![0, 0], &vec![0, 1]).unwrap_err(),
        EinsumError::InvalidAxes
    );
}

#[test]
fn from_parts_rejects_wrong_buffer_length() {
    assert_eq!(
        Tensor::from_parts(vec![2, 3], vec![1, 2, 3]).unwrap_err(),
        EinsumError::ShapeDataMismatch
    );
}

#[test]
fn scalar_tensor_roundtrip() {
    let s = Tensor::scalar(42);
    assert_eq!(s.rank(), 0);
    assert_eq!(s.num_elements(), 1);
    assert_eq!(s.get(&vec![]), 42);
}
