use einsum_core::{
    checked_prod, flat_of_index, index_of_flat, Contraction, SingletonContraction,
    SingletonContractor, SizedContraction, Summation, Tensor,
};

fn sized(
    operands: Vec<Vec<char>>,
    output: Vec<char>,
    summed: Vec<char>,
    sizes: Vec<(char, usize)>,
) -> SizedContraction {
    SizedContraction {
        contraction: Contraction {
            operand_indices: operands,
            output_indices: output,
            summed_indices: summed,
        },
        output_size: sizes,
    }
}

#[test]
fn singleton_permutation() {
    let sc = sized(
        vec![vec!['i', 'j']],
        vec!['j', 'i'],
        vec![],
        vec![('i', 2), ('j', 3)],
    );
    let op = SingletonContraction::new(&sc);
    let t = Tensor::from_parts(vec![2, 3], vec![1, 2, 3, 4, 5, 6]).unwrap();
    let r = op.contract_singleton(&t);
    assert_eq!(r.shape_vec(), &vec![3, 2]);
    assert_eq!(r.get(&vec![0, 0]), 1);
    assert_eq!(r.get(&vec![0, 1]), 4);
    assert_eq!(r.get(&vec![2, 0]), 3);
    assert_eq!(r.get(&vec![2, 1]), 6);
}

#[test]
fn singleton_diagonalization() {
    let sc = sized(vec![vec!['i', 'i']], vec!['i'], vec![], vec![('i', 2)]);
    let op = SingletonContraction::new(&sc);
    let t = Tensor::from_parts(vec![2, 2], vec![1, 2, 3, 4]).unwrap();
    let r = op.contract_singleton(&t);
    assert_eq!(r.shape_vec(), &vec![2]);
    assert_eq!(r.get(&vec![0]), 1);
    assert_eq!(r.get(&vec![1]), 4);
}

#[test]
fn singleton_view_and_summation() {
    let sc = sized(
        vec![vec!['i', 'j']],
        vec!['i'],
        vec!['j'],
        vec![('i', 2), ('j', 3)],
    );
    let op = SingletonContraction::new(&sc);
    let t = Tensor::from_parts(vec![2, 3], vec![1, 2, 3, 4, 5, 6]).unwrap();
    let r = op.contract_singleton(&t);
    assert_eq!(r.shape_vec(), &vec![2]);
    assert_eq!(r.get(&vec![0]), 6);
    assert_eq!(r.get(&vec![1]), 15);
}

#[test]
fn singleton_permuted_summation() {
    // Sum over the leading axis while keeping the trailing one.
    let sc = sized(
        vec![vec!['i', 'j']],
        vec!['j'],
        vec!['i'],
        vec![('i', 2), ('j', 3)],
    );
    let op = SingletonContraction::new(&sc);
    let t = Tensor::from_parts(vec![2, 3], vec![1, 2, 3, 4, 5, 6]).unwrap();
    let r = op.contract_singleton(&t);
    assert_eq!(r.shape_vec(), &vec![3]);
    assert_eq!(r.get(&vec![0]), 5);
    assert_eq!(r.get(&vec![1]), 7);
    assert_eq!(r.get(&vec![2]), 9);
}

#[test]
fn summation_over_trailing_axes() {
    let op = Summation::new(1, 1);
    let t = Tensor::from_parts(vec![2, 3], vec![1, 2, 3, 4, 5, 6]).unwrap();
    let r = op.contract_singleton(&t);
    assert_eq!(r.shape_vec(), &vec![2]);
    assert_eq!(r.get(&vec![0]), 6);
    assert_eq!(r.get(&vec![1]), 15);
}

#[test]
fn flat_index_roundtrip() {
    let shape = vec![2usize, 3, 4];
    let idx = vec![1usize, 2, 3];
    let flat = flat_of_index(&idx, &shape);
    assert_eq!(flat, 1 * 12 + 2 * 4 + 3);
    assert_eq!(index_of_flat(flat, &shape), idx);
}

#[test]
fn checked_prod_counts_elements() {
    assert_eq!(checked_prod(&vec![2, 3, 4]), Some(24));
    assert_eq!(checked_prod(&vec![]), Some(1));
    assert_eq!(checked_prod(&vec![usize::MAX, 0]), Some(0));
    assert_eq!(checked_prod(&vec![usize::MAX, 2]), None);
}
