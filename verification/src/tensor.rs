//! Score tensors as the core consumes them.
//!
//! The external scorer hands back named tensors of raw floating-point
//! logits.  Before the core sees them, the surrounding application squashes
//! every logit once through the sigmoid and scales it into fixed point (see
//! [`crate::score`]); a tensor here is therefore a flat, row-major vector of
//! fixed-point probabilities together with its explicit shape.

use vstd::prelude::*;
use crate::score::{Score, SCORE_ONE, valid_score};
use crate::context::EntityContext;

verus! {

/// Product of all dimensions of a shape.
pub open spec fn spec_product(s: Seq<usize>) -> int
    decreases s.len(),
{
    if s.len() == 0 {
        1
    } else {
        spec_product(s.drop_last()) * s.last()
    }
}

/// A named-shape tensor of fixed-point probability scores, flattened in
/// row-major order.
pub struct ScoreTensor {
    pub shape: Vec<usize>,
    pub data: Vec<Score>,
}

impl ScoreTensor {
    /// The data length matches the shape and every score is a probability.
    pub open spec fn wf(&self) -> bool {
        &&& self.data@.len() == spec_product(self.shape@)
        &&& forall|i: int| 0 <= i < self.data@.len() ==> valid_score(#[trigger] self.data@[i])
    }

    /// Builds a tensor after checking that `data` fills `shape` exactly and
    /// that every score lies in `[0, SCORE_ONE]`; returns `None` exactly
    /// when one of the two checks fails.
    pub fn new(shape: Vec<usize>, data: Vec<Score>) -> (r: Option<ScoreTensor>)
        ensures
            match r {
                Some(t) => t.wf() && t.shape == shape && t.data == data,
                None => !(data@.len() == spec_product(shape@) && forall|i: int|
                    0 <= i < data@.len() ==> valid_score(#[trigger] data@[i])),
            },
    {
        let dlen = data.len();
        let mut p: usize = 1;
        let mut fits: bool = true;
        let mut i: usize = 0;
        while i < shape.len()
            invariant
                i <= shape@.len(),
                fits ==> p == spec_product(shape@.subrange(0, i as int)),
                !fits ==> spec_product(shape@.subrange(0, i as int)) > usize::MAX,
            decreases shape@.len() - i,
        {
            let d = shape[i];
            let ghost prev = spec_product(shape@.subrange(0, i as int));
            proof {
                assert(shape@.subrange(0, i + 1).drop_last() =~= shape@.subrange(0, i as int));
                assert(shape@.subrange(0, i + 1).last() == shape@[i as int]);
                assert(spec_product(shape@.subrange(0, i + 1)) == prev * (d as int));
            }
            if d == 0 {
                p = 0;
                fits = true;
                proof {
                    assert(prev * 0int == 0);
                }
            } else if fits && p <= usize::MAX / d {
                proof {
                    assert(p * d <= usize::MAX && p * d == prev * (d as int)) by (nonlinear_arith)
                        requires
                            d >= 1,
                            p <= usize::MAX as int / d as int,
                            p == prev,
                    {}
                }
                p = p * d;
            } else {
                proof {
                    assert(prev * (d as int) > usize::MAX) by (nonlinear_arith)
                        requires
                            d >= 1,
                            prev > usize::MAX as int || (prev >= 0 && prev > usize::MAX as int
                                / d as int),
                    {}
                }
                fits = false;
            }
            i = i + 1;
        }
        proof {
            assert(shape@.subrange(0, shape@.len() as int) =~= shape@);
        }
        if !fits {
            return None;
        }
        if p != dlen {
            return None;
        }
        let mut j: usize = 0;
        while j < data.len()
            invariant
                j <= data@.len(),
                forall|k: int| 0 <= k < j ==> valid_score(#[trigger] data@[k]),
            decreases data@.len() - j,
        {
            if data[j] > SCORE_ONE {
                return None;
            }
            j = j + 1;
        }
        Some(ScoreTensor { shape, data })
    }
}

/// Looks up a tensor by name, first match first.
pub open spec fn spec_find_tensor(ts: Seq<(String, ScoreTensor)>, name: Seq<char>) -> Option<
    ScoreTensor,
>
    decreases ts.len(),
{
    if ts.len() == 0 {
        None
    } else if ts[0].0@ == name {
        Some(ts[0].1)
    } else {
        spec_find_tensor(ts.drop_first(), name)
    }
}

/// Scorer output as handed to the decoding stages: the named score tensors
/// together with the batch context they belong to.
pub struct TensorOutput {
    pub tensors: Vec<(String, ScoreTensor)>,
    pub context: EntityContext,
}

impl TensorOutput {
    /// Every tensor in the output is well formed.
    pub open spec fn wf(&self) -> bool {
        forall|i: int| 0 <= i < self.tensors@.len() ==> (#[trigger] self.tensors@[i]).1.wf()
    }

    /// Returns the first tensor carrying `name`, if any.
    pub fn get_tensor<'a>(&'a self, name: &String) -> (r: Option<&'a ScoreTensor>)
        ensures
            match r {
                Some(t) => spec_find_tensor(self.tensors@, name@) == Some(*t),
                None => spec_find_tensor(self.tensors@, name@) is None,
            },
    {
        proof {
            assert(self.tensors@.skip(0) =~= self.tensors@);
        }
        let mut i: usize = 0;
        while i < self.tensors.len()
            invariant
                i <= self.tensors@.len(),
                spec_find_tensor(self.tensors@, name@) == spec_find_tensor(
                    self.tensors@.skip(i as int),
                    name@,
                ),
            decreases self.tensors@.len() - i,
        {
            proof {
                assert(self.tensors@.skip(i as int).drop_first() =~= self.tensors@.skip(i + 1));
            }
            if self.tensors[i].0.eq(name) {
                return Some(&self.tensors[i].1);
            }
            i = i + 1;
        }
        None
    }

    /// A found tensor is well formed when the whole output is.
    pub proof fn lemma_found_tensor_wf(&self, name: Seq<char>)
        requires
            self.wf(),
        ensures
            spec_find_tensor(self.tensors@, name) matches Some(t) ==> t.wf(),
    {
        self.lemma_found_tensor_wf_rec(self.tensors@, name);
    }

    proof fn lemma_found_tensor_wf_rec(&self, ts: Seq<(String, ScoreTensor)>, name: Seq<char>)
        requires
            forall|i: int| 0 <= i < ts.len() ==> (#[trigger] ts[i]).1.wf(),
        ensures
            spec_find_tensor(ts, name) matches Some(t) ==> t.wf(),
        decreases ts.len(),
    {
        if ts.len() > 0 && ts[0].0@ != name {
            self.lemma_found_tensor_wf_rec(ts.drop_first(), name);
        }
    }
}

} // verus!
