//! Dense row-major tensors of `i64` elements, and their mathematical model.
use vstd::prelude::*;
use crate::indexing::{
    all_at_least, checked_prod, flat_of_index, in_bounds, flat_index, lemma_flat_index_bounds,
    prod_all, to_ints,
};

verus! {

/// Caller-facing contract violations; anything else the engine assumes
/// validated and never re-checks.
#[derive(Clone, Copy, Debug, PartialEq, Eq, Structural)]
pub enum EinsumError {
    /// The element buffer's length does not equal the product of the extents.
    ShapeDataMismatch,
    /// Axis lists handed to the pairwise contractor do not match the
    /// operands' ranks or extents.
    InvalidAxes,
    /// The result would have more elements than a `usize` can count.
    OutputTooLarge,
}

/// Mathematical model of a tensor: its extents and its elements in row-major
/// order.
pub ghost struct TensorModel {
    pub shape: Seq<int>,
    pub data: Seq<i64>,
}

impl TensorModel {
    pub open spec fn wf(self) -> bool {
        &&& all_at_least(self.shape, 0)
        &&& self.data.len() == prod_all(self.shape)
    }

    /// The element at multi-index `idx`.
    pub open spec fn at(self, idx: Seq<int>) -> i64 {
        self.data[flat_index(idx, self.shape)]
    }

    pub open spec fn rank(self) -> int {
        self.shape.len() as int
    }
}

/// A dense tensor: extents plus a row-major element buffer whose length is
/// the product of the extents.
#[derive(Debug)]
pub struct Tensor {
    pub shape: Vec<usize>,
    pub data: Vec<i64>,
}

impl View for Tensor {
    type V = TensorModel;

    open spec fn view(&self) -> TensorModel {
        TensorModel { shape: to_ints(self.shape@), data: self.data@ }
    }
}

impl Tensor {
    /// Builds a tensor from extents and a row-major element buffer; rejects a
    /// buffer whose length does not match the extents.
    pub fn from_parts(shape: Vec<usize>, data: Vec<i64>) -> (r: Result<Tensor, EinsumError>)
        ensures
            match r {
                Ok(t) => {
                    &&& t@.wf()
                    &&& t@.shape == to_ints(shape@)
                    &&& t@.data == data@
                },
                Err(e) => {
                    &&& e == EinsumError::ShapeDataMismatch
                    &&& prod_all(to_ints(shape@)) != data@.len()
                },
            },
    {
        let total = checked_prod(&shape);
        match total {
            Some(p) => {
                if p == data.len() {
                    proof {
                        crate::indexing::lemma_prod_all_nonneg_from_usize(shape@);
                    }
                    Ok(Tensor { shape, data })
                } else {
                    Err(EinsumError::ShapeDataMismatch)
                }
            },
            None => {
                // The buffer can hold at most `usize::MAX` elements, so it
                // cannot match an element count beyond that.
                let l = data.len();
                Err(EinsumError::ShapeDataMismatch)
            },
        }
    }

    /// A rank-0 tensor holding one element.
    pub fn scalar(v: i64) -> (r: Tensor)
        ensures
            r@.wf(),
            r@.shape == Seq::<int>::empty(),
            r@.data == seq![v],
    {
        let mut data: Vec<i64> = Vec::new();
        data.push(v);
        let r = Tensor { shape: Vec::new(), data };
        proof {
            assert(r@.shape =~= Seq::<int>::empty());
            assert(r@.data =~= seq![v]);
        }
        r
    }

    pub fn rank(&self) -> (r: usize)
        ensures
            r as int == self@.rank(),
    {
        self.shape.len()
    }

    /// The extents.
    pub fn shape_vec(&self) -> (r: &Vec<usize>)
        ensures
            to_ints(r@) == self@.shape,
    {
        &self.shape
    }

    /// Number of elements.
    pub fn num_elements(&self) -> (r: usize)
        ensures
            r as int == self@.data.len(),
    {
        self.data.len()
    }

    /// The element at multi-index `idx`.
    pub fn get(&self, idx: &Vec<usize>) -> (r: i64)
        requires
            self@.wf(),
            in_bounds(to_ints(idx@), self@.shape),
        ensures
            r == self@.at(to_ints(idx@)),
    {
        let n = self.data.len();
        proof {
            lemma_flat_index_bounds(to_ints(idx@), self@.shape);
        }
        let f = flat_of_index(idx, &self.shape);
        self.data[f]
    }

    /// An owned copy with the same extents and elements.
    pub fn to_owned(&self) -> (r: Tensor)
        ensures
            r@ == self@,
    {
        let mut shape: Vec<usize> = Vec::new();
        let n = self.shape.len();
        let mut i: usize = 0;
        while i < n
            invariant
                i <= n,
                n == self.shape@.len(),
                shape@.len() == i,
                forall|j: int| 0 <= j < i ==> #[trigger] shape@[j] == self.shape@[j],
            decreases n - i,
        {
            shape.push(self.shape[i]);
            i += 1;
        }
        let mut data: Vec<i64> = Vec::new();
        let dn = self.data.len();
        let mut k: usize = 0;
        while k < dn
            invariant
                k <= dn,
                dn == self.data@.len(),
                data@.len() == k,
                forall|j: int| 0 <= j < k ==> #[trigger] data@[j] == self.data@[j],
            decreases dn - k,
        {
            data.push(self.data[k]);
            k += 1;
        }
        let r = Tensor { shape, data };
        proof {
            assert(r@.shape =~= self@.shape);
            assert(r@.data =~= self@.data);
        }
        r
    }

    /// The element at row-major offset `p`.
    pub fn get_flat(&self, p: usize) -> (r: i64)
        requires
            self@.wf(),
            (p as int) < self@.data.len(),
        ensures
            r == self@.data[p as int],
    {
        self.data[p]
    }
}

} // verus!
