//! Row-major multi-index arithmetic: products of extents, flattening a
//! multi-index to an offset, and recovering the multi-index from an offset.
use vstd::prelude::*;
use vstd::arithmetic::div_mod::{
    lemma_fundamental_div_mod, lemma_fundamental_div_mod_converse, lemma_div_pos_is_pos,
    lemma_multiply_divide_lt,
};

verus! {

/// The extents of a shape as mathematical integers.
pub open spec fn to_ints(s: Seq<usize>) -> Seq<int> {
    Seq::new(s.len(), |i: int| s[i] as int)
}

/// Number of elements of a dense tensor with the given shape
/// (the empty shape describes a scalar, which has one element).
pub open spec fn prod_all(shape: Seq<int>) -> int
    decreases shape.len(),
{
    if shape.len() == 0 {
        1
    } else {
        prod_all(shape.drop_last()) * shape.last()
    }
}

/// Every extent is at least `lo`.
pub open spec fn all_at_least(shape: Seq<int>, lo: int) -> bool {
    forall|i: int| 0 <= i < shape.len() ==> lo <= #[trigger] shape[i]
}

/// `idx` is a valid multi-index into `shape`.
pub open spec fn in_bounds(idx: Seq<int>, shape: Seq<int>) -> bool {
    &&& idx.len() == shape.len()
    &&& forall|i: int| 0 <= i < idx.len() ==> 0 <= #[trigger] idx[i] && idx[i] < shape[i]
}

/// Row-major flat offset of multi-index `idx` in `shape` (Horner form).
pub open spec fn flat_index(idx: Seq<int>, shape: Seq<int>) -> int
    decreases shape.len(),
{
    if shape.len() == 0 {
        0
    } else {
        flat_index(idx.drop_last(), shape.drop_last()) * shape.last() + idx.last()
    }
}

/// The multi-index whose row-major offset in `shape` is `p`.
pub open spec fn unflatten(p: int, shape: Seq<int>) -> Seq<int>
    decreases shape.len(),
{
    if shape.len() == 0 {
        Seq::empty()
    } else {
        unflatten(p / shape.last(), shape.drop_last()).push(p % shape.last())
    }
}

pub proof fn lemma_prod_all_nonneg(shape: Seq<int>)
    requires
        all_at_least(shape, 0),
    ensures
        prod_all(shape) >= 0,
    decreases shape.len(),
{
    if shape.len() > 0 {
        assert(all_at_least(shape.drop_last(), 0));
        lemma_prod_all_nonneg(shape.drop_last());
        assert(prod_all(shape.drop_last()) * shape.last() >= 0) by (nonlinear_arith)
            requires
                prod_all(shape.drop_last()) >= 0,
                shape.last() >= 0,
        ;
    }
}

pub proof fn lemma_prod_all_pos(shape: Seq<int>)
    requires
        all_at_least(shape, 1),
    ensures
        prod_all(shape) >= 1,
    decreases shape.len(),
{
    if shape.len() > 0 {
        assert(all_at_least(shape.drop_last(), 1));
        lemma_prod_all_pos(shape.drop_last());
        assert(prod_all(shape.drop_last()) * shape.last() >= 1) by (nonlinear_arith)
            requires
                prod_all(shape.drop_last()) >= 1,
                shape.last() >= 1,
        ;
    }
}

/// A shape with a zero extent describes an empty tensor.
pub proof fn lemma_prod_all_zero(shape: Seq<int>, i: int)
    requires
        0 <= i < shape.len(),
        shape[i] == 0,
        all_at_least(shape, 0),
    ensures
        prod_all(shape) == 0,
    decreases shape.len(),
{
    if i == shape.len() - 1 {
        assert(prod_all(shape.drop_last()) * 0 == 0) by (nonlinear_arith);
    } else {
        assert(all_at_least(shape.drop_last(), 0));
        lemma_prod_all_zero(shape.drop_last(), i);
        assert(0 * shape.last() == 0) by (nonlinear_arith);
    }
}

/// If a shape admits any in-bounds index, each extent is positive.
pub proof fn lemma_in_bounds_extents(idx: Seq<int>, shape: Seq<int>)
    requires
        in_bounds(idx, shape),
    ensures
        all_at_least(shape, 1),
{
    assert forall|i: int| 0 <= i < shape.len() implies 1 <= #[trigger] shape[i] by {
        assert(0 <= idx[i] && idx[i] < shape[i]);
    }
}

pub proof fn lemma_prod_all_concat(s1: Seq<int>, s2: Seq<int>)
    ensures
        prod_all(s1 + s2) == prod_all(s1) * prod_all(s2),
    decreases s2.len(),
{
    if s2.len() == 0 {
        assert(s1 + s2 =~= s1);
        assert(prod_all(s1) * 1 == prod_all(s1)) by (nonlinear_arith);
    } else {
        assert((s1 + s2).drop_last() =~= s1 + s2.drop_last());
        lemma_prod_all_concat(s1, s2.drop_last());
        assert((prod_all(s1) * prod_all(s2.drop_last())) * s2.last() == prod_all(s1) * (
        prod_all(s2.drop_last()) * s2.last())) by (nonlinear_arith);
    }
}

/// The product over a prefix never exceeds the whole product when every
/// extent is positive.
pub proof fn lemma_prod_all_take_le(shape: Seq<int>, k: int)
    requires
        all_at_least(shape, 1),
        0 <= k <= shape.len(),
    ensures
        1 <= prod_all(shape.take(k)),
        prod_all(shape.take(k)) <= prod_all(shape),
{
    assert(shape =~= shape.take(k) + shape.skip(k));
    lemma_prod_all_concat(shape.take(k), shape.skip(k));
    assert(all_at_least(shape.take(k), 1));
    assert(all_at_least(shape.skip(k), 1));
    lemma_prod_all_pos(shape.take(k));
    lemma_prod_all_pos(shape.skip(k));
    assert(prod_all(shape.take(k)) <= prod_all(shape.take(k)) * prod_all(shape.skip(k)))
        by (nonlinear_arith)
        requires
            prod_all(shape.take(k)) >= 1,
            prod_all(shape.skip(k)) >= 1,
    ;
}

pub proof fn lemma_flat_index_bounds(idx: Seq<int>, shape: Seq<int>)
    requires
        in_bounds(idx, shape),
    ensures
        0 <= flat_index(idx, shape),
        flat_index(idx, shape) < prod_all(shape),
    decreases shape.len(),
{
    if shape.len() == 0 {
    } else {
        assert(in_bounds(idx.drop_last(), shape.drop_last()));
        lemma_flat_index_bounds(idx.drop_last(), shape.drop_last());
        let f = flat_index(idx.drop_last(), shape.drop_last());
        let p = prod_all(shape.drop_last());
        let s = shape.last();
        let l = idx.last();
        assert(0 <= f * s + l && f * s + l < p * s) by (nonlinear_arith)
            requires
                0 <= f,
                f < p,
                0 <= l,
                l < s,
        ;
    }
}

pub proof fn lemma_unflatten_works(p: int, shape: Seq<int>)
    requires
        all_at_least(shape, 0),
        0 <= p,
        p < prod_all(shape),
    ensures
        in_bounds(unflatten(p, shape), shape),
        flat_index(unflatten(p, shape), shape) == p,
    decreases shape.len(),
{
    if shape.len() == 0 {
    } else {
        let s = shape.last();
        let rest = shape.drop_last();
        assert(all_at_least(rest, 0));
        lemma_prod_all_nonneg(rest);
        assert(s >= 1 && prod_all(rest) >= 1) by (nonlinear_arith)
            requires
                prod_all(rest) * s > p,
                p >= 0,
                s >= 0,
                prod_all(rest) >= 0,
        ;
        lemma_fundamental_div_mod(p, s);
        lemma_div_pos_is_pos(p, s);
        assert(prod_all(rest) * s == s * prod_all(rest)) by (nonlinear_arith);
        lemma_multiply_divide_lt(p, s, prod_all(rest));
        lemma_unflatten_works(p / s, rest);
        let u = unflatten(p / s, rest);
        assert(u.push(p % s).drop_last() =~= u);
        assert(in_bounds(u.push(p % s), shape));
        assert(flat_index(u.push(p % s), shape) == (p / s) * s + p % s);
        assert((p / s) * s == s * (p / s)) by (nonlinear_arith);
    }
}

pub proof fn lemma_flat_unflatten(idx: Seq<int>, shape: Seq<int>)
    requires
        in_bounds(idx, shape),
    ensures
        unflatten(flat_index(idx, shape), shape) == idx,
    decreases shape.len(),
{
    if shape.len() == 0 {
        assert(idx =~= Seq::<int>::empty());
    } else {
        let s = shape.last();
        let l = idx.last();
        assert(in_bounds(idx.drop_last(), shape.drop_last()));
        lemma_flat_index_bounds(idx.drop_last(), shape.drop_last());
        let f = flat_index(idx.drop_last(), shape.drop_last());
        let flat = f * s + l;
        lemma_fundamental_div_mod_converse(flat, s, f, l);
        lemma_flat_unflatten(idx.drop_last(), shape.drop_last());
        assert(unflatten(flat, shape) == idx.drop_last().push(l));
        assert(idx.drop_last().push(l) =~= idx);
    }
}

/// Row-major flat offset of `idx` in `shape`.
pub fn flat_of_index(idx: &Vec<usize>, shape: &Vec<usize>) -> (r: usize)
    requires
        in_bounds(to_ints(idx@), to_ints(shape@)),
        prod_all(to_ints(shape@)) <= usize::MAX,
    ensures
        r as int == flat_index(to_ints(idx@), to_ints(shape@)),
{
    let ghost iv = to_ints(idx@);
    let ghost sv = to_ints(shape@);
    let n = shape.len();
    let mut acc: usize = 0;
    let mut i: usize = 0;
    while i < n
        invariant
            i <= n,
            n == shape@.len(),
            idx@.len() == n,
            iv == to_ints(idx@),
            sv == to_ints(shape@),
            in_bounds(iv, sv),
            prod_all(sv) <= usize::MAX,
            acc as int == flat_index(iv.take(i as int), sv.take(i as int)),
        decreases n - i,
    {
        proof {
            assert(iv.take(i + 1).drop_last() =~= iv.take(i as int));
            assert(sv.take(i + 1).drop_last() =~= sv.take(i as int));
            assert(in_bounds(iv.take(i + 1), sv.take(i + 1)));
            lemma_flat_index_bounds(iv.take(i + 1), sv.take(i + 1));
            lemma_in_bounds_extents(iv, sv);
            lemma_prod_all_take_le(sv, i + 1);
            assert(flat_index(iv.take(i + 1), sv.take(i + 1)) == acc as int * sv[i as int]
                + iv[i as int]);
        }
        acc = acc * shape[i] + idx[i];
        i += 1;
    }
    proof {
        assert(iv.take(n as int) =~= iv);
        assert(sv.take(n as int) =~= sv);
    }
    acc
}

/// Multi-index whose row-major offset in `shape` is `p`.
pub fn index_of_flat(p: usize, shape: &Vec<usize>) -> (r: Vec<usize>)
    requires
        (p as int) < prod_all(to_ints(shape@)),
    ensures
        to_ints(r@) == unflatten(p as int, to_ints(shape@)),
        in_bounds(to_ints(r@), to_ints(shape@)),
        r@.len() == shape@.len(),
{
    let ghost sv = to_ints(shape@);
    let n = shape.len();
    let mut out: Vec<usize> = Vec::new();
    let mut k: usize = 0;
    while k < n
        invariant
            k <= n,
            out@.len() == k,
        decreases n - k,
    {
        out.push(0);
        k += 1;
    }
    let mut pc: usize = p;
    let mut i: usize = n;
    proof {
        assert(sv.take(n as int) =~= sv);
        assert(to_ints(out@).skip(n as int) =~= Seq::<int>::empty());
        assert(unflatten(p as int, sv) + Seq::<int>::empty() =~= unflatten(p as int, sv));
    }
    while i > 0
        invariant
            i <= n,
            n == shape@.len(),
            sv == to_ints(shape@),
            out@.len() == n,
            (pc as int) < prod_all(sv.take(i as int)),
            unflatten(p as int, sv) == unflatten(pc as int, sv.take(i as int)) + to_ints(
                out@,
            ).skip(i as int),
        decreases i,
    {
        proof {
            assert(sv.take(i as int).drop_last() =~= sv.take(i - 1));
            lemma_prod_all_nonneg(sv.take(i - 1));
            assert(sv[i - 1] >= 1 && prod_all(sv.take(i - 1)) >= 1) by (nonlinear_arith)
                requires
                    prod_all(sv.take(i - 1)) * sv[i - 1] > pc as int,
                    pc as int >= 0,
                    sv[i - 1] >= 0,
                    prod_all(sv.take(i - 1)) >= 0,
            ;
        }
        let s = shape[i - 1];
        let digit = pc % s;
        let ghost old_out = out@;
        let ghost old_pc = pc as int;
        out[i - 1] = digit;
        pc = pc / s;
        proof {
            lemma_fundamental_div_mod(old_pc, s as int);
            lemma_div_pos_is_pos(old_pc, s as int);
            assert(prod_all(sv.take(i - 1)) * sv[i - 1] == sv[i - 1] * prod_all(sv.take(i - 1)))
                by (nonlinear_arith);
            lemma_multiply_divide_lt(old_pc, s as int, prod_all(sv.take(i - 1)));
            assert(unflatten(old_pc, sv.take(i as int)) == unflatten(pc as int, sv.take(i - 1)).push(
                digit as int,
            ));
            assert(to_ints(out@).skip(i - 1) =~= seq![digit as int] + to_ints(old_out).skip(
                i as int,
            ));
            assert(unflatten(pc as int, sv.take(i - 1)).push(digit as int) + to_ints(old_out).skip(
                i as int,
            ) =~= unflatten(pc as int, sv.take(i - 1)) + to_ints(out@).skip(i - 1));
        }
        i -= 1;
    }
    proof {
        assert(sv.take(0) =~= Seq::<int>::empty());
        assert(unflatten(p as int, sv) =~= to_ints(out@));
        lemma_prod_all_nonneg_from_usize(shape@);
        lemma_unflatten_works(p as int, sv);
    }
    out
}

/// Two extent lists with the same mathematical values are the same list.
pub proof fn lemma_to_ints_injective(a: Seq<usize>, b: Seq<usize>)
    requires
        to_ints(a) == to_ints(b),
    ensures
        a == b,
{
    assert(a.len() == b.len()) by {
        assert(to_ints(a).len() == a.len());
        assert(to_ints(b).len() == b.len());
    }
    assert forall|j: int| 0 <= j < a.len() implies a[j] == b[j] by {
        assert(to_ints(a)[j] == a[j] as int);
        assert(to_ints(b)[j] == b[j] as int);
        assert(to_ints(a)[j] == to_ints(b)[j]);
    }
    assert(a =~= b);
}

/// Extents taken from `usize` values are never negative.
pub proof fn lemma_prod_all_nonneg_from_usize(s: Seq<usize>)
    ensures
        all_at_least(to_ints(s), 0),
        prod_all(to_ints(s)) >= 0,
{
    lemma_prod_all_nonneg(to_ints(s));
}

/// Number of elements of a dense tensor of shape `shape`, or `None` when the
/// count does not fit in `usize`.
pub fn checked_prod(shape: &Vec<usize>) -> (r: Option<usize>)
    ensures
        match r {
            Some(p) => p as int == prod_all(to_ints(shape@)),
            None => prod_all(to_ints(shape@)) > usize::MAX,
        },
{
    let ghost sv = to_ints(shape@);
    let n = shape.len();
    let mut j: usize = 0;
    while j < n
        invariant
            j <= n,
            n == shape@.len(),
            sv == to_ints(shape@),
            forall|t: int| 0 <= t < j ==> #[trigger] sv[t] >= 1,
        decreases n - j,
    {
        if shape[j] == 0 {
            proof {
                lemma_prod_all_nonneg_from_usize(shape@);
                lemma_prod_all_zero(sv, j as int);
            }
            return Some(0);
        }
        j += 1;
    }
    proof {
        assert(all_at_least(sv, 1));
    }
    let mut acc: usize = 1;
    let mut i: usize = 0;
    while i < n
        invariant
            i <= n,
            n == shape@.len(),
            sv == to_ints(shape@),
            all_at_least(sv, 1),
            acc as int == prod_all(sv.take(i as int)),
        decreases n - i,
    {
        proof {
            assert(sv.take(i + 1).drop_last() =~= sv.take(i as int));
        }
        let s = shape[i];
        let next = acc.checked_mul(s);
        match next {
            Some(v) => {
                acc = v;
            },
            None => {
                proof {
                    assert(prod_all(sv.take(i + 1)) > usize::MAX);
                    lemma_prefix_overflow_implies_total(sv, i + 1);
                }
                return None;
            },
        }
        i += 1;
    }
    proof {
        assert(sv.take(n as int) =~= sv);
    }
    Some(acc)
}

/// If a prefix product already exceeds a bound and all extents are positive,
/// the whole product exceeds it too.
proof fn lemma_prefix_overflow_implies_total(shape: Seq<int>, k: int)
    requires
        all_at_least(shape, 1),
        0 <= k <= shape.len(),
        prod_all(shape.take(k)) > usize::MAX,
    ensures
        prod_all(shape) > usize::MAX,
{
    lemma_prod_all_take_le(shape, k);
}

} // verus!
