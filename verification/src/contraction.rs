//! Contraction specifications: operand label lists, output labels, the
//! summed-label classification, and the label-to-extent mapping.
use vstd::prelude::*;
use crate::tensor::EinsumError;

verus! {

/// No label occurs twice.
pub open spec fn distinct_chars(s: Seq<char>) -> bool {
    forall|i: int, j: int| 0 <= i < j < s.len() ==> #[trigger] s[i] != #[trigger] s[j]
}

/// No key occurs twice.
pub open spec fn distinct_keys(pairs: Seq<(char, usize)>) -> bool {
    forall|i: int, j: int| 0 <= i < j < pairs.len() ==> (#[trigger] pairs[i]).0 != (
    #[trigger] pairs[j]).0
}

/// The position of `c` in `s`; meaningful when `s` holds `c` exactly once.
pub open spec fn idxof(s: Seq<char>, c: char) -> int {
    choose|j: int| 0 <= j < s.len() && s[j] == c
}

pub proof fn lemma_idxof_unique(s: Seq<char>, c: char, i: int)
    requires
        distinct_chars(s),
        0 <= i < s.len(),
        s[i] == c,
    ensures
        idxof(s, c) == i,
{
    assert(0 <= idxof(s, c) < s.len() && s[idxof(s, c)] == c);
}

/// The label-to-extent mapping described by an association list; a later
/// entry would win, but well-formed lists have distinct keys.
pub open spec fn pairs_to_sizes(pairs: Seq<(char, usize)>) -> Map<char, int>
    decreases pairs.len(),
{
    if pairs.len() == 0 {
        Map::empty()
    } else {
        pairs_to_sizes(pairs.drop_last()).insert(pairs.last().0, pairs.last().1 as int)
    }
}

pub proof fn lemma_pairs_contains(pairs: Seq<(char, usize)>, c: char)
    ensures
        pairs_to_sizes(pairs).contains_key(c) <==> exists|j: int|
            0 <= j < pairs.len() && (#[trigger] pairs[j]).0 == c,
    decreases pairs.len(),
{
    if pairs.len() > 0 {
        lemma_pairs_contains(pairs.drop_last(), c);
        if pairs.last().0 == c {
            assert(pairs[pairs.len() - 1].0 == c);
        } else if pairs_to_sizes(pairs).contains_key(c) {
            let j = choose|j: int|
                0 <= j < pairs.drop_last().len() && (#[trigger] pairs.drop_last()[j]).0 == c;
            assert(pairs[j].0 == c);
        } else {
            assert forall|j: int| 0 <= j < pairs.len() implies (#[trigger] pairs[j]).0 != c by {
                if j < pairs.len() - 1 {
                    assert(pairs.drop_last()[j].0 != c);
                }
            }
        }
    }
}

pub proof fn lemma_pairs_value(pairs: Seq<(char, usize)>, i: int)
    requires
        distinct_keys(pairs),
        0 <= i < pairs.len(),
    ensures
        pairs_to_sizes(pairs).contains_key(pairs[i].0),
        pairs_to_sizes(pairs)[pairs[i].0] == pairs[i].1 as int,
        pairs_to_sizes(pairs)[pairs[i].0] >= 0,
    decreases pairs.len(),
{
    if i == pairs.len() - 1 {
    } else {
        assert(distinct_keys(pairs.drop_last()));
        assert(pairs.drop_last()[i] == pairs[i]);
        lemma_pairs_value(pairs.drop_last(), i);
        assert(pairs[i].0 != pairs.last().0);
    }
}

/// Every extent in a well-formed mapping is nonnegative.
pub proof fn lemma_pairs_nonneg(pairs: Seq<(char, usize)>, c: char)
    requires
        pairs_to_sizes(pairs).contains_key(c),
    ensures
        pairs_to_sizes(pairs)[c] >= 0,
    decreases pairs.len(),
{
    if pairs.len() > 0 && pairs.last().0 != c {
        lemma_pairs_nonneg(pairs.drop_last(), c);
    }
}

/// All operands' label sequences, concatenated in operand order.
pub open spec fn flat_labels(ops: Seq<Seq<char>>) -> Seq<char>
    decreases ops.len(),
{
    if ops.len() == 0 {
        Seq::empty()
    } else {
        flat_labels(ops.drop_last()) + ops.last()
    }
}

/// Left-to-right scan that keeps each label not in the output the first time
/// it is seen: the summed labels in first-occurrence order.
pub open spec fn collect_summed(s: Seq<char>, output: Seq<char>, acc: Seq<char>) -> Seq<char>
    decreases s.len(),
{
    if s.len() == 0 {
        acc
    } else if output.contains(s[0]) || acc.contains(s[0]) {
        collect_summed(s.skip(1), output, acc)
    } else {
        collect_summed(s.skip(1), output, acc.push(s[0]))
    }
}

/// The distinct labels that occur in the operands but not in the output, in
/// first-occurrence order.
pub open spec fn summed_of(operands: Seq<Seq<char>>, output: Seq<char>) -> Seq<char> {
    collect_summed(flat_labels(operands), output, Seq::empty())
}

pub proof fn lemma_collect_summed_props(s: Seq<char>, output: Seq<char>, acc: Seq<char>)
    requires
        distinct_chars(acc),
        forall|c: char| acc.contains(c) ==> !output.contains(c),
    ensures
        distinct_chars(collect_summed(s, output, acc)),
        forall|c: char|
            #[trigger] collect_summed(s, output, acc).contains(c) <==> (acc.contains(c) || (
            s.contains(c) && !output.contains(c))),
    decreases s.len(),
{
    if s.len() == 0 {
        assert forall|c: char| s.contains(c) implies false by {
        }
    } else {
        let h = s[0];
        let t = s.skip(1);
        assert forall|c: char| #[trigger] s.contains(c) <==> (c == h || t.contains(c)) by {
            if s.contains(c) {
                let i = choose|i: int| 0 <= i < s.len() && s[i] == c;
                if i > 0 {
                    assert(t[i - 1] == c);
                }
            }
            if t.contains(c) {
                let i = choose|i: int| 0 <= i < t.len() && t[i] == c;
                assert(s[i + 1] == c);
            }
        }
        if output.contains(h) || acc.contains(h) {
            lemma_collect_summed_props(t, output, acc);
        } else {
            let acc2 = acc.push(h);
            assert(distinct_chars(acc2)) by {
                assert forall|i: int, j: int| 0 <= i < j < acc2.len() implies #[trigger] acc2[i]
                    != (#[trigger] acc2[j]) by {
                    if j == acc2.len() - 1 {
                        assert(acc.contains(acc[i]));
                    }
                }
            }
            assert forall|c: char| acc2.contains(c) implies !output.contains(c) by {
                let i = choose|i: int| 0 <= i < acc2.len() && acc2[i] == c;
                if i < acc.len() {
                    assert(acc.contains(c));
                }
            }
            lemma_collect_summed_props(t, output, acc2);
            assert(acc2.contains(h)) by {
                assert(acc2[acc2.len() - 1] == h);
            }
            assert forall|c: char| acc2.contains(c) implies (acc.contains(c) || c == h) by {
                let i = choose|i: int| 0 <= i < acc2.len() && acc2[i] == c;
                if i < acc.len() {
                    assert(acc.contains(c));
                }
            }
            assert forall|c: char| acc.contains(c) implies acc2.contains(c) by {
                let i = choose|i: int| 0 <= i < acc.len() && acc[i] == c;
                assert(acc2[i] == c);
            }
        }
    }
}

/// A label-level description of a contraction: one label per axis of each
/// operand, the labels of the output axes, and the derived summed labels.
pub struct Contraction {
    pub operand_indices: Vec<Vec<char>>,
    pub output_indices: Vec<char>,
    /// The distinct labels summed away, in first-occurrence order.
    pub summed_indices: Vec<char>,
}

/// A `Contraction` together with the extent of every label.
pub struct SizedContraction {
    pub contraction: Contraction,
    pub output_size: Vec<(char, usize)>,
}

/// Mathematical model of a sized contraction.
pub ghost struct ContractionModel {
    pub operands: Seq<Seq<char>>,
    pub output: Seq<char>,
    pub summed: Seq<char>,
    pub sizes: Map<char, int>,
}

impl View for SizedContraction {
    type V = ContractionModel;

    open spec fn view(&self) -> ContractionModel {
        ContractionModel {
            operands: Seq::new(
                self.contraction.operand_indices@.len(),
                |i: int| self.contraction.operand_indices@[i]@,
            ),
            output: self.contraction.output_indices@,
            summed: self.contraction.summed_indices@,
            sizes: pairs_to_sizes(self.output_size@),
        }
    }
}

impl ContractionModel {
    /// The engine's input contract: the specification has been validated.
    pub open spec fn wf(self) -> bool {
        &&& distinct_chars(self.output)
        &&& self.summed == summed_of(self.operands, self.output)
        &&& forall|c: char| flat_labels(self.operands).contains(c) ==> self.sizes.contains_key(c)
        &&& forall|c: char|
            #[trigger] self.output.contains(c) ==> flat_labels(self.operands).contains(c)
        &&& forall|c: char| self.sizes.contains_key(c) ==> #[trigger] self.sizes[c] >= 0
    }
}

impl SizedContraction {
    pub open spec fn wf(self) -> bool {
        &&& self@.wf()
        &&& distinct_keys(self.output_size@)
    }

    /// The extent of label `c`.
    pub fn size_of(&self, c: char) -> (r: usize)
        requires
            self.wf(),
            self@.sizes.contains_key(c),
        ensures
            r as int == self@.sizes[c],
    {
        let n = self.output_size.len();
        let mut i: usize = 0;
        proof {
            lemma_pairs_contains(self.output_size@, c);
        }
        while i < n
            invariant
                i <= n,
                n == self.output_size@.len(),
                self.wf(),
                self@.sizes.contains_key(c),
                exists|j: int| 0 <= j < n && (#[trigger] self.output_size@[j]).0 == c,
                forall|j: int| 0 <= j < i ==> (#[trigger] self.output_size@[j]).0 != c,
            decreases n - i,
        {
            let (k, v) = self.output_size[i];
            if k == c {
                proof {
                    lemma_pairs_value(self.output_size@, i as int);
                }
                return v;
            }
            i += 1;
        }
        proof {
            assert(false);
        }
        0
    }
}

/// The position of `c` in `v`, searching from the front.
pub fn position_of(v: &Vec<char>, c: char) -> (r: Option<usize>)
    ensures
        match r {
            Some(i) => (i as int) < v@.len() && v@[i as int] == c,
            None => !v@.contains(c),
        },
{
    let n = v.len();
    let mut i: usize = 0;
    while i < n
        invariant
            i <= n,
            n == v@.len(),
            forall|j: int| 0 <= j < i ==> v@[j] != c,
        decreases n - i,
    {
        if v[i] == c {
            return Some(i);
        }
        i += 1;
    }
    None
}

} // verus!
