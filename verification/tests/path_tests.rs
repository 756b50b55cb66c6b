use einsum_core::{
    check_wf, compute_summed, einsum_sc, generate_optimized_order, Contraction, EinsumPath,
    OptimizationMethod, SizedContraction, Tensor,
};

fn sized(
    operands: Vec<Vec<char>>,
    output: Vec<char>,
    sizes: Vec<(char, usize)>,
) -> SizedContraction {
    let summed = compute_summed(&operands, &output);
    SizedContraction {
        contraction: Contraction {
            operand_indices: operands,
            output_indices: output,
            summed_indices: summed,
        },
        output_size: sizes,
    }
}

fn tensor(shape: Vec<usize>, data: Vec<i64>) -> Tensor {
    Tensor::from_parts(shape, data).unwrap()
}

fn chain_spec() -> SizedContraction {
    sized(
        vec![vec!['i', 'j'], vec!['j', 'k'], vec!['k', 'l']],
        vec!['i', 'l'],
        vec![('i', 2), ('j', 2), ('k', 2), ('l', 2)],
    )
}

fn chain_operands() -> Vec<Tensor> {
    vec![
        tensor(vec![2, 2], vec![1, 2, 3, 4]),
        tensor(vec![2, 2], vec![5, 6, 7, 8]),
        tensor(vec![2, 2], vec![9, 10, 11, 12]),
    ]
}

#[test]
fn check_wf_accepts_valid_specification() {
    assert!(check_wf(&chain_spec()));
}

#[test]
fn check_wf_rejects_wrong_summed_order() {
    let mut sc = chain_spec();
    sc.contraction.summed_indices = vec!['k', 'j'];
    assert!(!check_wf(&sc));
}

#[test]
fn naive_path_matches_all_at_once_contraction() {
    let sc = chain_spec();
    let direct = einsum_sc(&sc, &chain_operands());
    let order = generate_optimized_order(&sc, OptimizationMethod::Naive);
    assert_eq!(order.steps.len(), 2);
    let path = EinsumPath::new(order);
    let stepped = path.contract_operands(chain_operands()).unwrap();
    assert_eq!(stepped.shape_vec(), direct.shape_vec());
    for i in 0..2usize {
        for l in 0..2usize {
            assert_eq!(stepped.get(&vec![i, l]), direct.get(&vec![i, l]));
        }
    }
}

#[test]
fn greedy_path_matches_all_at_once_contraction() {
    let sc = chain_spec();
    let direct = einsum_sc(&sc, &chain_operands());
    let order = generate_optimized_order(&sc, OptimizationMethod::Greedy);
    assert_eq!(order.steps.len(), 2);
    let path = EinsumPath::new(order);
    let stepped = path.contract_operands(chain_operands()).unwrap();
    for i in 0..2usize {
        for l in 0..2usize {
            assert_eq!(stepped.get(&vec![i, l]), direct.get(&vec![i, l]));
        }
    }
}

#[test]
fn path_rejects_mismatched_operands() {
    let sc = chain_spec();
    let order = generate_optimized_order(&sc, OptimizationMethod::Naive);
    let path = EinsumPath::new(order);
    // One operand has the wrong shape for the plan.
    let bad = vec![
        tensor(vec![2, 3], vec![1, 2, 3, 4, 5, 6]),
        tensor(vec![2, 2], vec![5, 6, 7, 8]),
        tensor(vec![2, 2], vec![9, 10, 11, 12]),
    ];
    assert!(path.contract_operands(bad).is_err());
}

#[test]
fn compute_summed_uses_first_occurrence_order() {
    let operands = vec![vec!['i', 'j'], vec!['j', 'k', 'm']];
    let output = vec!['i'];
    assert_eq!(compute_summed(&operands, &output), vec!['j', 'k', 'm']);
}
