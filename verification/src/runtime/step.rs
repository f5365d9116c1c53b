//! The typed unit of work: a step with a stable kind and a version.

use vstd::prelude::*;

verus! {

/// The identity-version of a [`Step`]: it changes whenever the step's output
/// could change, so that anything keyed on a step drops stale results.
#[derive(Debug, PartialEq, Eq, Hash)]
pub struct StepVersion(pub String);

impl View for StepVersion {
    type V = Seq<char>;

    open spec fn view(&self) -> Seq<char> {
        self.0@
    }
}

impl Clone for StepVersion {
    fn clone(&self) -> (r: Self)
        ensures
            r@ == self@,
    {
        StepVersion(self.0.clone())
    }
}

impl StepVersion {
    /// Builds a version from its text.
    pub fn new(version: &str) -> (r: Self)
        ensures
            r@ == version@,
    {
        StepVersion(version.to_string())
    }

    /// The version as text.
    pub fn as_str(&self) -> (r: &str)
        ensures
            r@ == self@,
    {
        self.0.as_str()
    }
}

/// A typed unit of work: it maps an input to an output, identified by a stable
/// `kind` and a [`StepVersion`].
///
/// A run may change what the step remembers (a memo, a connection), so what it
/// did is a relation over the step, the input, the memory after and the output.
/// The trait stays object-safe, so that steps can be held behind `dyn`.
pub trait Step {
    /// The input the step consumes.
    type In;

    /// The output the step produces.
    type Out;

    /// What the step remembers between runs.
    type Memory;

    /// The text of the step's kind.
    open spec fn kind_spec(&self) -> Seq<char> {
        arbitrary()
    }

    /// The text of the step's version.
    open spec fn version_spec(&self) -> Seq<char> {
        arbitrary()
    }

    /// What the step remembers.
    open spec fn memory(&self) -> Self::Memory {
        arbitrary()
    }

    /// Whether a run on `input` may leave `after` in memory and give `out`.
    open spec fn runs(&self, input: &Self::In, after: Self::Memory, out: &Self::Out) -> bool {
        true
    }

    /// A stable identifier of this kind of step.
    fn kind(&self) -> (r: &'static str)
        ensures
            r@ == self.kind_spec(),
    ;

    /// The step's identity-version.
    fn version(&self) -> (r: StepVersion)
        ensures
            r@ == self.version_spec(),
    ;

    /// Runs the step on a borrowed input.
    fn run(&mut self, input: &Self::In) -> (out: Self::Out)
        ensures
            old(self).runs(input, final(self).memory(), &out),
            final(self).kind_spec() == old(self).kind_spec(),
            final(self).version_spec() == old(self).version_spec(),
    ;
}

} // verus!
