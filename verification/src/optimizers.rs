//! The contraction-order optimizer: turns a multi-operand specification into
//! an ordered plan of pairwise steps. The executor re-validates every step it
//! runs, so the planner's choices affect cost, never correctness.
use vstd::prelude::*;
use crate::contraction::{Contraction, SizedContraction};
use crate::paths::{ContractionOrder, PairStep};
use crate::validation::compute_summed;

verus! {

/// How the pairwise order is chosen.
#[derive(Clone, Copy, PartialEq, Eq, Structural, Debug)]
pub enum OptimizationMethod {
    /// Contract the first two live operands at every step.
    Naive,
    /// At every step contract the pair with the lowest estimated cost; ties
    /// go to the pair with the lowest slot positions.
    Greedy,
}

fn clone_chars(v: &Vec<char>) -> (r: Vec<char>)
    ensures
        r@ == v@,
{
    let n = v.len();
    let mut r: Vec<char> = Vec::new();
    let mut i: usize = 0;
    while i < n
        invariant
            i <= n,
            n == v@.len(),
            r@.len() == i,
            forall|j: int| 0 <= j < i ==> #[trigger] r@[j] == v@[j],
        decreases n - i,
    {
        r.push(v[i]);
        i += 1;
    }
    proof {
        assert(r@ =~= v@);
    }
    r
}

fn clone_sizes(v: &Vec<(char, usize)>) -> (r: Vec<(char, usize)>)
    ensures
        r@ == v@,
{
    let n = v.len();
    let mut r: Vec<(char, usize)> = Vec::new();
    let mut i: usize = 0;
    while i < n
        invariant
            i <= n,
            n == v@.len(),
            r@.len() == i,
            forall|j: int| 0 <= j < i ==> #[trigger] r@[j] == v@[j],
        decreases n - i,
    {
        let (c, s) = v[i];
        r.push((c, s));
        i += 1;
    }
    proof {
        assert(r@ =~= v@);
    }
    r
}

/// Whether any of the listed label lists holds `c`.
fn any_contains(lists: &Vec<Vec<char>>, c: char) -> bool {
    let n = lists.len();
    let mut i: usize = 0;
    while i < n
        invariant
            i <= n,
            n == lists@.len(),
        decreases n - i,
    {
        if crate::contraction::position_of(&lists[i], c).is_some() {
            return true;
        }
        i += 1;
    }
    false
}

/// The labels of a pairwise step's result: every distinct label of the pair
/// that the remaining operands or the final output still need, in
/// first-occurrence order.
fn step_output_labels(
    la: &Vec<char>,
    lb: &Vec<char>,
    rest: &Vec<Vec<char>>,
    final_output: &Vec<char>,
) -> Vec<char> {
    let mut out: Vec<char> = Vec::new();
    let na = la.len();
    let mut i: usize = 0;
    while i < na
        invariant
            i <= na,
            na == la@.len(),
        decreases na - i,
    {
        let c = la[i];
        if crate::contraction::position_of(&out, c).is_none() && (crate::contraction::position_of(
            final_output,
            c,
        ).is_some() || any_contains(rest, c)) {
            out.push(c);
        }
        i += 1;
    }
    let nb = lb.len();
    let mut k: usize = 0;
    while k < nb
        invariant
            k <= nb,
            nb == lb@.len(),
        decreases nb - k,
    {
        let c = lb[k];
        if crate::contraction::position_of(&out, c).is_none() && (crate::contraction::position_of(
            final_output,
            c,
        ).is_some() || any_contains(rest, c)) {
            out.push(c);
        }
        k += 1;
    }
    out
}

/// The extent recorded for `c`, or one when none is recorded; the cost model
/// needs no more.
fn size_or_one(sizes: &Vec<(char, usize)>, c: char) -> usize {
    let n = sizes.len();
    let mut i: usize = 0;
    while i < n
        invariant
            i <= n,
            n == sizes@.len(),
        decreases n - i,
    {
        if sizes[i].0 == c {
            return sizes[i].1;
        }
        i += 1;
    }
    1
}

/// Cost estimate of contracting two operands: the product of the extents of
/// all distinct labels they touch, saturating at the largest representable
/// count. Proportional to the work and to the intermediate's size.
fn pair_cost(la: &Vec<char>, lb: &Vec<char>, sizes: &Vec<(char, usize)>) -> u128 {
    let mut seen: Vec<char> = Vec::new();
    let mut cost: u128 = 1;
    let na = la.len();
    let mut i: usize = 0;
    while i < na
        invariant
            i <= na,
            na == la@.len(),
        decreases na - i,
    {
        let c = la[i];
        if crate::contraction::position_of(&seen, c).is_none() {
            seen.push(c);
            cost = match cost.checked_mul(size_or_one(sizes, c) as u128) {
                Some(v) => v,
                None => u128::MAX,
            };
        }
        i += 1;
    }
    let nb = lb.len();
    let mut k: usize = 0;
    while k < nb
        invariant
            k <= nb,
            nb == lb@.len(),
        decreases nb - k,
    {
        let c = lb[k];
        if crate::contraction::position_of(&seen, c).is_none() {
            seen.push(c);
            cost = match cost.checked_mul(size_or_one(sizes, c) as u128) {
                Some(v) => v,
                None => u128::MAX,
            };
        }
        k += 1;
    }
    cost
}

/// Chooses the pair of live slots to contract next under the given method.
fn choose_pair(
    labels_list: &Vec<Vec<char>>,
    sizes: &Vec<(char, usize)>,
    method: OptimizationMethod,
) -> (r: (usize, usize))
    requires
        labels_list@.len() >= 2,
    ensures
        r.0 < r.1,
        (r.1 as int) < labels_list@.len(),
{
    match method {
        OptimizationMethod::Naive => (0, 1),
        OptimizationMethod::Greedy => {
            let n = labels_list.len();
            let mut best: (usize, usize) = (0, 1);
            let mut best_cost: u128 = pair_cost(&labels_list[0], &labels_list[1], sizes);
            let mut i: usize = 0;
            while i < n
                invariant
                    i <= n,
                    n == labels_list@.len(),
                    n >= 2,
                    best.0 < best.1,
                    (best.1 as int) < n,
                decreases n - i,
            {
                let mut j: usize = i + 1;
                while j < n
                    invariant
                        i < j <= n || j == i + 1,
                        i < n,
                        n == labels_list@.len(),
                        best.0 < best.1,
                        (best.1 as int) < n,
                    decreases n - j,
                {
                    let c = pair_cost(&labels_list[i], &labels_list[j], sizes);
                    if c < best_cost {
                        best = (i, j);
                        best_cost = c;
                    }
                    j += 1;
                }
                i += 1;
            }
            best
        },
    }
}

/// Builds the ordered plan of pairwise contractions for a multi-operand
/// specification: exhaustively the first pair under the naive method, the
/// locally cheapest pair under the greedy one, until one operand remains.
pub fn generate_optimized_order(sc: &SizedContraction, method: OptimizationMethod) -> (r:
    ContractionOrder)
    ensures
        sc.contraction.operand_indices@.len() >= 1 ==> r.steps@.len() + 1
            == sc.contraction.operand_indices@.len(),
{
    let mut labels_list: Vec<Vec<char>> = Vec::new();
    let n0 = sc.contraction.operand_indices.len();
    let mut i: usize = 0;
    while i < n0
        invariant
            i <= n0,
            n0 == sc.contraction.operand_indices@.len(),
            labels_list@.len() == i,
        decreases n0 - i,
    {
        labels_list.push(clone_chars(&sc.contraction.operand_indices[i]));
        i += 1;
    }
    let mut steps: Vec<PairStep> = Vec::new();
    while labels_list.len() > 1
        invariant
            labels_list@.len() + steps@.len() == n0 as int,
            n0 >= 1 ==> labels_list@.len() >= 1,
            n0 == sc.contraction.operand_indices@.len(),
        decreases labels_list@.len(),
    {
        let (lhs_pos, rhs_pos) = choose_pair(&labels_list, &sc.output_size, method);
        let lb = labels_list.remove(rhs_pos);
        let la = labels_list.remove(lhs_pos);
        // The last step produces the final result, so it must emit the
        // target output labels in their requested order; earlier steps keep
        // whatever later steps still need, in first-occurrence order.
        let out = if labels_list.len() == 0 {
            clone_chars(&sc.contraction.output_indices)
        } else {
            step_output_labels(&la, &lb, &labels_list, &sc.contraction.output_indices)
        };
        let mut pair_ops: Vec<Vec<char>> = Vec::new();
        pair_ops.push(la);
        pair_ops.push(lb);
        let summed = compute_summed(&pair_ops, &out);
        labels_list.push(clone_chars(&out));
        let step_sc = SizedContraction {
            contraction: Contraction {
                operand_indices: pair_ops,
                output_indices: out,
                summed_indices: summed,
            },
            output_size: clone_sizes(&sc.output_size),
        };
        steps.push(PairStep { lhs_pos, rhs_pos, sized_contraction: step_sc });
    }
    ContractionOrder { steps }
}

} // verus!
