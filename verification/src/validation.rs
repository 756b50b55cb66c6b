//! Runtime validation of contraction specifications: the engine's internal
//! planner re-checks every derived specification it builds, so a verified
//! caller never has to trust the planner.
use vstd::prelude::*;
use crate::contraction::{
    collect_summed, distinct_chars, distinct_keys, flat_labels, lemma_pairs_contains,
    lemma_pairs_nonneg, pairs_to_sizes, summed_of, SizedContraction,
};

verus! {

/// Whether the characters of `v` are pairwise distinct.
pub fn is_distinct_chars(v: &Vec<char>) -> (r: bool)
    ensures
        r == distinct_chars(v@),
{
    let n = v.len();
    let mut i: usize = 0;
    while i < n
        invariant
            i <= n,
            n == v@.len(),
            forall|a: int, b: int| 0 <= a < b < i ==> #[trigger] v@[a] != #[trigger] v@[b],
        decreases n - i,
    {
        let mut j: usize = 0;
        while j < i
            invariant
                j <= i,
                i < n,
                n == v@.len(),
                forall|b: int| 0 <= b < j ==> #[trigger] v@[b] != v@[i as int],
            decreases i - j,
        {
            if v[j] == v[i] {
                proof {
                    assert(v@[j as int] == v@[i as int]);
                }
                return false;
            }
            j += 1;
        }
        i += 1;
    }
    true
}

/// All operands' labels, concatenated in operand order.
pub fn flatten_labels(operand_indices: &Vec<Vec<char>>) -> (r: Vec<char>)
    ensures
        r@ == flat_labels(Seq::new(operand_indices@.len(), |i: int| operand_indices@[i]@)),
{
    let ghost ops = Seq::new(operand_indices@.len(), |i: int| operand_indices@[i]@);
    let n = operand_indices.len();
    let mut r: Vec<char> = Vec::new();
    let mut k: usize = 0;
    while k < n
        invariant
            k <= n,
            n == operand_indices@.len(),
            ops == Seq::new(operand_indices@.len(), |i: int| operand_indices@[i]@),
            r@ == flat_labels(ops.take(k as int)),
        decreases n - k,
    {
        let labels = &operand_indices[k];
        let m = labels.len();
        let ghost before = r@;
        let mut j: usize = 0;
        while j < m
            invariant
                j <= m,
                m == labels@.len(),
                r@ == before + labels@.take(j as int),
            decreases m - j,
        {
            let ghost prev = r@;
            r.push(labels[j]);
            proof {
                assert(before + labels@.take(j + 1) =~= (before + labels@.take(j as int)).push(
                    labels@[j as int],
                ));
            }
            j += 1;
        }
        proof {
            assert(labels@.take(m as int) =~= labels@);
            assert(ops.take(k + 1).drop_last() =~= ops.take(k as int));
            assert(ops.take(k + 1).last() == ops[k as int]);
            assert(ops[k as int] == labels@);
            assert(r@ =~= flat_labels(ops.take(k + 1)));
        }
        k += 1;
    }
    proof {
        assert(ops.take(n as int) =~= ops);
    }
    r
}

/// The distinct labels of the operands that are not in the output, in
/// first-occurrence order.
pub fn compute_summed(operand_indices: &Vec<Vec<char>>, output: &Vec<char>) -> (r: Vec<char>)
    ensures
        r@ == summed_of(
            Seq::new(operand_indices@.len(), |i: int| operand_indices@[i]@),
            output@,
        ),
{
    let ghost ops = Seq::new(operand_indices@.len(), |i: int| operand_indices@[i]@);
    let flat = flatten_labels(operand_indices);
    let ghost fv = flat@;
    let n = flat.len();
    let mut acc: Vec<char> = Vec::new();
    let mut i: usize = 0;
    proof {
        assert(fv.skip(0) =~= fv);
        assert(acc@ =~= Seq::<char>::empty());
    }
    while i < n
        invariant
            i <= n,
            n == fv.len(),
            fv == flat@,
            collect_summed(fv, output@, Seq::empty()) == collect_summed(
                fv.skip(i as int),
                output@,
                acc@,
            ),
        decreases n - i,
    {
        let c = flat[i];
        proof {
            assert(fv.skip(i as int)[0] == fv[i as int]);
            assert(fv.skip(i as int).skip(1) =~= fv.skip(i + 1));
        }
        let mut keep = true;
        match crate::contraction::position_of(output, c) {
            Some(pos) => {
                proof {
                    assert(output@.contains(c)) by {
                        assert(output@[pos as int] == c);
                    }
                }
                keep = false;
            },
            None => {},
        }
        if keep {
            match crate::contraction::position_of(&acc, c) {
                Some(pos) => {
                    proof {
                        assert(acc@.contains(c)) by {
                            assert(acc@[pos as int] == c);
                        }
                    }
                    keep = false;
                },
                None => {},
            }
        }
        if keep {
            proof {
                assert(!output@.contains(c) && !acc@.contains(c));
            }
            acc.push(c);
        }
        i += 1;
    }
    proof {
        assert(fv.skip(n as int) =~= Seq::<char>::empty());
    }
    acc
}

/// Whether the two label lists are equal.
pub fn chars_equal(a: &Vec<char>, b: &Vec<char>) -> (r: bool)
    ensures
        r == (a@ == b@),
{
    let n = a.len();
    if b.len() != n {
        proof {
            assert(a@.len() != b@.len());
        }
        return false;
    }
    let mut i: usize = 0;
    while i < n
        invariant
            i <= n,
            n == a@.len(),
            n == b@.len(),
            forall|j: int| 0 <= j < i ==> #[trigger] a@[j] == b@[j],
        decreases n - i,
    {
        if a[i] != b[i] {
            return false;
        }
        i += 1;
    }
    proof {
        assert(a@ =~= b@);
    }
    true
}

/// Whether `sc` is a well-formed, pre-validated sized contraction.
pub fn check_wf(sc: &SizedContraction) -> (r: bool)
    ensures
        r == sc.wf(),
{
    let ghost m = sc@;
    // Distinct size-mapping keys.
    let nk = sc.output_size.len();
    let mut i: usize = 0;
    while i < nk
        invariant
            i <= nk,
            nk == sc.output_size@.len(),
            forall|a: int, b: int|
                0 <= a < b < i ==> (#[trigger] sc.output_size@[a]).0 != (
                #[trigger] sc.output_size@[b]).0,
        decreases nk - i,
    {
        let mut j: usize = 0;
        while j < i
            invariant
                j <= i,
                i < nk,
                nk == sc.output_size@.len(),
                forall|b: int| 0 <= b < j ==> (#[trigger] sc.output_size@[b]).0 != sc.output_size@[
                    i as int].0,
            decreases i - j,
        {
            if sc.output_size[j].0 == sc.output_size[i].0 {
                return false;
            }
            j += 1;
        }
        i += 1;
    }
    proof {
        assert(distinct_keys(sc.output_size@));
    }
    // Distinct output labels.
    if !is_distinct_chars(&sc.contraction.output_indices) {
        return false;
    }
    // The recorded summed labels are the derived ones.
    let summed = compute_summed(&sc.contraction.operand_indices, &sc.contraction.output_indices);
    if !chars_equal(&sc.contraction.summed_indices, &summed) {
        return false;
    }
    // Every operand label has an extent.
    let flat = flatten_labels(&sc.contraction.operand_indices);
    let nf = flat.len();
    let mut f: usize = 0;
    while f < nf
        invariant
            f <= nf,
            nf == flat@.len(),
            m == sc@,
            flat@ == flat_labels(m.operands),
            forall|j: int| 0 <= j < f ==> m.sizes.contains_key(#[trigger] flat@[j]),
        decreases nf - f,
    {
        let c = flat[f];
        let mut found = false;
        let mut p: usize = 0;
        let np = sc.output_size.len();
        while p < np
            invariant
                p <= np,
                np == sc.output_size@.len(),
                !found ==> forall|j: int| 0 <= j < p ==> (#[trigger] sc.output_size@[j]).0 != c,
                found ==> exists|j: int|
                    0 <= j < np && (#[trigger] sc.output_size@[j]).0 == c,
            decreases np - p,
        {
            if sc.output_size[p].0 == c {
                proof {
                    assert(sc.output_size@[p as int].0 == c);
                }
                found = true;
            }
            p += 1;
        }
        proof {
            lemma_pairs_contains(sc.output_size@, c);
        }
        if !found {
            proof {
                assert(flat@.contains(c)) by {
                    assert(flat@[f as int] == c);
                }
                assert(!m.sizes.contains_key(c));
            }
            return false;
        }
        f += 1;
    }
    // Every output label occurs in some operand.
    let no = sc.contraction.output_indices.len();
    let mut o: usize = 0;
    while o < no
        invariant
            o <= no,
            no == sc.contraction.output_indices@.len(),
            m == sc@,
            flat@ == flat_labels(m.operands),
            forall|j: int|
                0 <= j < o ==> flat_labels(m.operands).contains(
                    #[trigger] sc.contraction.output_indices@[j],
                ),
        decreases no - o,
    {
        let c = sc.contraction.output_indices[o];
        match crate::contraction::position_of(&flat, c) {
            Some(pos) => {
                proof {
                    assert(flat@[pos as int] == c);
                    assert(flat_labels(m.operands).contains(c));
                }
            },
            None => {
                proof {
                    assert(m.output.contains(c)) by {
                        assert(m.output[o as int] == c);
                    }
                }
                return false;
            },
        }
        o += 1;
    }
    proof {
        assert forall|c: char| #[trigger] flat_labels(m.operands).contains(c) implies
            m.sizes.contains_key(c) by {
            let j = choose|j: int| 0 <= j < flat@.len() && flat@[j] == c;
            assert(m.sizes.contains_key(flat@[j]));
        }
        assert forall|c: char| #[trigger] m.output.contains(c) implies flat_labels(
            m.operands,
        ).contains(c) by {
            let j = choose|j: int| 0 <= j < m.output.len() && m.output[j] == c;
            assert(flat_labels(m.operands).contains(m.output[j]));
        }
        assert forall|c: char| m.sizes.contains_key(c) implies #[trigger] m.sizes[c] >= 0 by {
            lemma_pairs_nonneg(sc.output_size@, c);
        }
        assert(sc.wf());
    }
    true
}

} // verus!
