//! The output stream of a script evaluation: what was printed, and which
//! artifacts the script asked to have materialised for the caller.

use vstd::prelude::*;

verus! {

/// The output stream: tracks whether anything was printed as a script
/// result, and collects the artifacts to ensure, each once, in the order
/// first asked for.
#[derive(Debug)]
pub struct OutputStream {
    pub printed: bool,
    pub artifacts: Vec<u64>,
}

/// Whether an artifact occurs in a list.
pub open spec fn artifact_in(a: u64, xs: Seq<u64>) -> bool {
    exists|i: int| 0 <= i < xs.len() && xs[i] == a
}

impl OutputStream {
    /// A fresh stream: nothing printed, nothing to ensure.
    pub fn new() -> (r: OutputStream)
        ensures
            !r.printed,
            r.artifacts@ == Seq::<u64>::empty(),
    {
        OutputStream { printed: false, artifacts: Vec::new() }
    }

    /// Whether the script printed a result.
    pub fn has_print(&self) -> (r: bool)
        ensures
            r == self.printed,
    {
        self.printed
    }

    /// Records that the script printed a result.
    pub fn mark_print(&mut self)
        ensures
            final(self).printed,
            final(self).artifacts@ == old(self).artifacts@,
    {
        self.printed = true;
    }

    /// Marks an artifact to be made available to the caller at the end
    /// of the evaluation.  An artifact already marked is not added
    /// again.
    pub fn ensure_artifact(&mut self, artifact: u64)
        ensures
            final(self).printed == old(self).printed,
            artifact_in(artifact, old(self).artifacts@) ==> final(self).artifacts@ == old(
                self,
            ).artifacts@,
            !artifact_in(artifact, old(self).artifacts@) ==> final(self).artifacts@ == old(
                self,
            ).artifacts@.push(artifact),
    {
        let mut i: usize = 0;
        while i < self.artifacts.len()
            invariant
                i <= self.artifacts@.len(),
                *self == *old(self),
                forall|j: int| 0 <= j < i ==> self.artifacts@[j] != artifact,
            decreases self.artifacts@.len() - i,
        {
            if self.artifacts[i] == artifact {
                return ;
            }
            i = i + 1;
        }
        self.artifacts.push(artifact);
    }

    /// Takes the collected artifacts, leaving none behind.
    pub fn take_artifacts(&mut self) -> (r: Vec<u64>)
        ensures
            r@ == old(self).artifacts@,
            final(self).artifacts@ == Seq::<u64>::empty(),
            final(self).printed == old(self).printed,
    {
        let mut out: Vec<u64> = Vec::new();
        std::mem::swap(&mut out, &mut self.artifacts);
        out
    }
}

} // verus!
