//! Typed stage composition.
//!
//! A stage is a pure function from an input value to a result over an output
//! value; stages compose left-to-right, and the type system enforces that
//! the first stage's output type is exactly the second stage's input type,
//! so a mismatched chain fails to build rather than at run time.  Each stage
//! carries its own success predicate and failure permission, and the
//! composed stage's contract is derived from them: failure anywhere
//! short-circuits and propagates untouched.

use vstd::prelude::*;

verus! {

/// A fatal decoding error: the scorer's output disagrees with what the
/// pipeline declared it needs.  Both variants abort the whole batch.
#[derive(Debug)]
pub enum StageError {
    /// A named tensor's shape disagrees with the shape derived from the
    /// batch context.
    ShapeMismatch { name: String, expected: Vec<usize>, actual: Vec<usize> },
    /// A required named tensor is absent from the scorer output.
    MissingTensor { name: String },
}

/// A pipeline stage: a pure transformation from `Input` to `Output` that
/// either succeeds or reports a [`StageError`].
pub trait Stage {
    type Input;
    type Output;

    /// What the stage demands of its input.
    spec fn pre(&self, input: &Self::Input) -> bool;

    /// What a successful application of this stage guarantees.
    spec fn post(&self, input: &Self::Input, output: &Self::Output) -> bool;

    /// On which inputs this stage is permitted to fail.
    spec fn may_fail(&self, input: &Self::Input) -> bool;

    /// Applies the stage to one input value.
    fn apply(&self, input: Self::Input) -> (r: Result<Self::Output, StageError>)
        requires
            self.pre(&input),
        ensures
            match r {
                Ok(output) => self.post(&input, &output),
                Err(_) => self.may_fail(&input),
            };
}

/// Left-to-right composition of two stages.  It only exists when the output
/// type of `first` equals the input type of `second`.
pub struct Composed<A, B> {
    pub first: A,
    pub second: B,
}

impl<A, B> Composed<A, B> {
    /// Chains `first` then `second`.
    pub fn new(first: A, second: B) -> (r: Composed<A, B>)
        ensures
            r.first == first,
            r.second == second,
    {
        Composed { first, second }
    }
}

impl<A: Stage, B: Stage<Input = A::Output>> Stage for Composed<A, B> {
    type Input = A::Input;
    type Output = B::Output;

    /// The chain demands what its first stage demands, and that whatever
    /// the first stage can produce satisfies the second stage's demand.
    open spec fn pre(&self, input: &A::Input) -> bool {
        &&& self.first.pre(input)
        &&& forall|m: A::Output| self.first.post(input, &m) ==> self.second.pre(&m)
    }

    /// Success of the chain: some intermediate value witnesses success of
    /// both halves.
    open spec fn post(&self, input: &A::Input, output: &B::Output) -> bool {
        exists|m: A::Output| self.first.post(input, &m) && self.second.post(&m, output)
    }

    /// The chain may fail where the first stage may, or where the second
    /// may on some value the first can produce.
    open spec fn may_fail(&self, input: &A::Input) -> bool {
        ||| self.first.may_fail(input)
        ||| exists|m: A::Output| self.first.post(input, &m) && self.second.may_fail(&m)
    }

    fn apply(&self, input: A::Input) -> (r: Result<B::Output, StageError>) {
        let ghost input0 = input;
        match self.first.apply(input) {
            Ok(mid) => {
                let ghost mid0 = mid;
                proof {
                    assert(self.first.post(&input0, &mid0));
                    assert(self.second.pre(&mid0));
                }
                let r = self.second.apply(mid);
                proof {
                    assert(self.first.post(&input0, &mid0));
                }
                r
            },
            Err(e) => Err(e),
        }
    }
}

/// Holds when every name in `expected` occurs in `provided`.
pub open spec fn spec_names_covered(expected: Seq<Seq<char>>, provided: Seq<Seq<char>>) -> bool {
    forall|i: int| 0 <= i < expected.len() ==> provided.contains(expected[i])
}

/// Holds when `provided` contains the name `name`.
fn names_contain(provided: &Vec<String>, name: &String) -> (r: bool)
    ensures
        r == provided.deep_view().contains(name@),
{
    let mut i: usize = 0;
    while i < provided.len()
        invariant
            i <= provided@.len(),
            forall|j: int| 0 <= j < i ==> provided.deep_view()[j] != name@,
        decreases provided@.len() - i,
    {
        if provided[i].eq(name) {
            assert(provided.deep_view()[i as int] == name@);
            return true;
        }
        i = i + 1;
    }
    false
}

/// Early validation of the tensor names a pipeline exchanges with the
/// external scorer: every expected name must be provided.  The first
/// missing name is reported as a fatal [`StageError::MissingTensor`], before
/// any data flows.
pub fn check_expected_names(expected: &Vec<String>, provided: &Vec<String>) -> (r: Result<(), StageError>)
    ensures
        r is Ok <==> spec_names_covered(expected.deep_view(), provided.deep_view()),
        r matches Err(StageError::MissingTensor { name }) ==> expected.deep_view().contains(name@)
            && !provided.deep_view().contains(name@),
{
    let mut i: usize = 0;
    while i < expected.len()
        invariant
            i <= expected@.len(),
            forall|j: int| 0 <= j < i ==> provided.deep_view().contains(
                #[trigger] expected.deep_view()[j],
            ),
        decreases expected@.len() - i,
    {
        if !names_contain(provided, &expected[i]) {
            proof {
                assert(!provided.deep_view().contains(expected.deep_view()[i as int]));
            }
            return Err(StageError::MissingTensor { name: expected[i].clone() });
        }
        i = i + 1;
    }
    Ok(())
}

} // verus!
