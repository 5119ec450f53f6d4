//! Dataset items: a source file path and its class label.
use vstd::prelude::*;

verus! {

/// One source file of the dataset and the label of its class.
pub struct Item {
    pub path: String,
    pub label: String,
}

impl View for Item {
    type V = (Seq<char>, Seq<char>);

    open spec fn view(&self) -> (Seq<char>, Seq<char>) {
        (self.path@, self.label@)
    }
}

impl Item {
    /// A copy of this item.
    pub fn duplicate(&self) -> (r: Item)
        ensures
            r == *self,
    {
        Item { path: self.path.clone(), label: self.label.clone() }
    }
}

} // verus!
