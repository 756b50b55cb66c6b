//! The meaning of a contraction: for every output multi-index, the sum over
//! all assignments of the summed labels of the product of one element from
//! each operand. All arithmetic is in the ring of 64-bit integers (wrapping).
use vstd::prelude::*;
use crate::contraction::{idxof, ContractionModel};
use crate::indexing::{in_bounds, prod_all, unflatten};
use crate::tensor::{Tensor, TensorModel};

verus! {

/// Addition in the ring of 64-bit integers.
pub open spec fn wadd(a: i64, b: i64) -> i64 {
    vstd::wrapping::i64_specs::wrapping_add(a, b)
}

/// Multiplication in the ring of 64-bit integers.
pub open spec fn wmul(a: i64, b: i64) -> i64 {
    vstd::wrapping::i64_specs::wrapping_mul(a, b)
}

/// Zero is the additive identity of the ring.
pub proof fn lemma_wadd_zero(x: i64)
    ensures
        wadd(0i64, x) == x,
        wadd(x, 0i64) == x,
{
}

/// One is the multiplicative identity of the ring.
pub proof fn lemma_wmul_one(x: i64)
    ensures
        wmul(1i64, x) == x,
        wmul(x, 1i64) == x,
{
    let r = 0x1_0000_0000_0000_0000int;
    if x >= 0 {
        vstd::arithmetic::div_mod::lemma_small_mod(x as nat, r as nat);
    } else {
        vstd::arithmetic::div_mod::lemma_fundamental_div_mod_converse(x as int, r, -1, x + r);
    }
    assert(1 * x == x) by (nonlinear_arith);
    assert(x * 1 == x) by (nonlinear_arith);
}

/// Multiplication in the ring is commutative.
pub proof fn lemma_wmul_comm(x: i64, y: i64)
    ensures
        wmul(x, y) == wmul(y, x),
{
    assert(x * y == y * x) by (nonlinear_arith);
}

/// Extents of the listed labels.
pub open spec fn sizes_of_seq(labels: Seq<char>, sizes: Map<char, int>) -> Seq<int> {
    Seq::new(labels.len(), |i: int| sizes[labels[i]])
}

/// The coordinate that label `c` takes under the output assignment `o` and
/// the summed assignment `q`.
pub open spec fn coord_of(c: char, output: Seq<char>, o: Seq<int>, summed: Seq<char>, q: Seq<int>) -> int {
    if output.contains(c) {
        o[idxof(output, c)]
    } else {
        q[idxof(summed, c)]
    }
}

/// The multi-index at which an operand with axis labels `labels` is read.
pub open spec fn operand_point(
    labels: Seq<char>,
    output: Seq<char>,
    o: Seq<int>,
    summed: Seq<char>,
    q: Seq<int>,
) -> Seq<int> {
    Seq::new(labels.len(), |ax: int| coord_of(labels[ax], output, o, summed, q))
}

/// Every label is either an output label or a summed label.
pub open spec fn labels_resolved(labels: Seq<char>, output: Seq<char>, summed: Seq<char>) -> bool {
    forall|ax: int|
        0 <= ax < labels.len() ==> output.contains(#[trigger] labels[ax]) || summed.contains(
            labels[ax],
        )
}

/// Product of the elements the first `k` operands contribute at one
/// assignment.
pub open spec fn term_value(
    tens: Seq<TensorModel>,
    opls: Seq<Seq<char>>,
    output: Seq<char>,
    o: Seq<int>,
    summed: Seq<char>,
    q: Seq<int>,
    k: int,
) -> i64
    decreases k,
{
    if k <= 0 {
        1i64
    } else {
        wmul(
            term_value(tens, opls, output, o, summed, q, k - 1),
            tens[k - 1].at(operand_point(opls[k - 1], output, o, summed, q)),
        )
    }
}

/// Sum of the full product term over the first `m` summed assignments, in
/// row-major order over the summed labels' extents.
pub open spec fn sum_value(
    tens: Seq<TensorModel>,
    opls: Seq<Seq<char>>,
    output: Seq<char>,
    o: Seq<int>,
    summed: Seq<char>,
    ssizes: Seq<int>,
    m: int,
) -> i64
    decreases m,
{
    if m <= 0 {
        0i64
    } else {
        wadd(
            sum_value(tens, opls, output, o, summed, ssizes, m - 1),
            term_value(
                tens,
                opls,
                output,
                o,
                summed,
                unflatten(m - 1, ssizes),
                opls.len() as int,
            ),
        )
    }
}

/// The value of the output cell at multi-index `o`: the naive reference
/// contraction.
pub open spec fn cell_value(m: ContractionModel, tens: Seq<TensorModel>, o: Seq<int>) -> i64 {
    let ssizes = sizes_of_seq(m.summed, m.sizes);
    sum_value(tens, m.operands, m.output, o, m.summed, ssizes, prod_all(ssizes))
}

/// The full output of a contraction, cell by cell.
pub open spec fn einsum_model(m: ContractionModel, tens: Seq<TensorModel>) -> TensorModel {
    let oshape = sizes_of_seq(m.output, m.sizes);
    TensorModel {
        shape: oshape,
        data: Seq::new(
            prod_all(oshape) as nat,
            |p: int| cell_value(m, tens, unflatten(p, oshape)),
        ),
    }
}

/// The operand tensors agree with the specification's labels and extents.
pub open spec fn operands_match(m: ContractionModel, tens: Seq<TensorModel>) -> bool {
    &&& tens.len() == m.operands.len()
    &&& forall|i: int| 0 <= i < tens.len() ==> (#[trigger] tens[i]).wf()
    &&& forall|i: int|
        0 <= i < tens.len() ==> (#[trigger] tens[i]).shape == sizes_of_seq(
            m.operands[i],
            m.sizes,
        )
}

/// The models of a list of tensors.
pub open spec fn tensor_views(s: Seq<Tensor>) -> Seq<TensorModel> {
    Seq::new(s.len(), |i: int| s[i]@)
}

/// An operand is read in bounds at every resolved assignment.
pub proof fn lemma_operand_point_in_bounds(
    labels: Seq<char>,
    output: Seq<char>,
    o: Seq<int>,
    summed: Seq<char>,
    q: Seq<int>,
    sizes: Map<char, int>,
)
    requires
        in_bounds(o, sizes_of_seq(output, sizes)),
        in_bounds(q, sizes_of_seq(summed, sizes)),
        labels_resolved(labels, output, summed),
        crate::contraction::distinct_chars(output),
        crate::contraction::distinct_chars(summed),
    ensures
        in_bounds(operand_point(labels, output, o, summed, q), sizes_of_seq(labels, sizes)),
{
    let pt = operand_point(labels, output, o, summed, q);
    let lsz = sizes_of_seq(labels, sizes);
    assert forall|ax: int| 0 <= ax < pt.len() implies 0 <= #[trigger] pt[ax] && pt[ax] < lsz[ax] by {
        let c = labels[ax];
        if output.contains(c) {
            let j = idxof(output, c);
            assert(0 <= j < output.len() && output[j] == c);
            assert(0 <= o[j] && o[j] < sizes_of_seq(output, sizes)[j]);
        } else {
            assert(summed.contains(c));
            let j = idxof(summed, c);
            assert(0 <= j < summed.len() && summed[j] == c);
            assert(0 <= q[j] && q[j] < sizes_of_seq(summed, sizes)[j]);
        }
    }
}

} // verus!
