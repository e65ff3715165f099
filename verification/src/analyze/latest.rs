use vstd::prelude::*;

use crate::analyze::anticipated_expressions::Data;
use crate::collections::KeyMap;
use crate::collections::KeySet;
use crate::data::lir;
use crate::data::operand::Label;

verus! {

/// Expressions placed latest: placeable at a point and either used there or
/// not placeable at every point that follows. The sets for each point of each
/// block are given; as an analysis, each point's output is the set given for
/// the point after it.
pub struct Latest {
    /// The expressions placed before each statement of each block, and after
    /// its last.
    pub inner: KeyMap<Label, Vec<Data>>,
}

impl Latest {
    pub closed spec fn wf(self) -> bool {
        &&& self.inner.wf()
        &&& forall|label: Label| #[trigger] self.inner@.contains_key(label) ==> forall|i: int|
            0 <= i < self.inner@[label]@.len() ==> (#[trigger] self.inner@[label]@[i]).wf()
    }

    /// The expressions placed at point `index` of block `label`.
    pub closed spec fn at(self, label: Label, index: int) -> Option<Set<lir::Expression>> {
        if self.inner@.contains_key(label) && 0 <= index < self.inner@[label]@.len() {
            Some(self.inner@[label]@[index]@)
        } else {
            None
        }
    }

    pub fn new(inner: KeyMap<Label, Vec<Data>>) -> (analysis: Self)
        requires
            inner.wf(),
            forall|label: Label| #[trigger] inner@.contains_key(label) ==> forall|i: int|
                0 <= i < inner@[label]@.len() ==> (#[trigger] inner@[label]@[i]).wf(),
        ensures
            analysis.wf(),
            forall|label: Label, index: int| #[trigger] analysis.at(label, index) == if inner@.contains_key(label) && 0
                <= index < inner@[label]@.len() {
                Some(inner@[label]@[index]@)
            } else {
                None
            },
    {
        Latest { inner }
    }

    /// The set at the entry of block `label`.
    pub fn default_with_metadata(&self, label: &Label) -> (data: Data)
        requires
            self.wf(),
            self.at(*label, 0) is Some,
        ensures
            data.wf(),
            data@ == self.at(*label, 0).unwrap(),
    {
        let mut data = KeySet::new();
        match self.inner.get(label) {
            Some(block) => {
                assert(block@[0].wf());
                data.extend(&block[0]);
            },
            None => {},
        }
        assert(data@ =~= self.at(*label, 0).unwrap());
        data
    }

    /// After statement `index` of block `label` holds the set given for the
    /// point after it, whatever held before.
    pub fn transfer_with_metadata<T>(&self, label: &Label, index: usize, statement: &lir::Statement<T>, output: &mut Data)
        requires
            self.wf(),
            old(output).wf(),
            self.at(*label, index + 1) is Some,
        ensures
            final(output).wf(),
            final(output)@ == self.at(*label, index + 1).unwrap(),
    {
        output.clear();
        match self.inner.get(label) {
            Some(block) => {
                let count = block.len();
                assert(index + 1 < count);
                assert(block@[index + 1].wf());
                output.extend(&block[index + 1]);
            },
            None => {},
        }
        assert(output@ =~= self.at(*label, index + 1).unwrap());
    }

    /// The sets are given at every point: merging changes nothing.
    pub fn merge(&self, outputs: &Vec<Option<&Data>>, input: &mut Data)
        ensures
            *final(input) == *old(input),
    {
    }
}

} // verus!
