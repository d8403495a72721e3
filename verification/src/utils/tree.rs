use vstd::prelude::*;

verus! {

/// A tree whose nodes each carry a value.
pub struct Tree<Item> {
    pub value: Item,
    pub children: Vec<Tree<Item>>,
}

impl<Item> Tree<Item> {
    fn new(value: Item) -> (r: Tree<Item>)
        ensures
            r.value == value,
            r.children@.len() == 0,
    {
        Tree { value, children: Vec::new() }
    }

    /// A tree of one node.
    pub fn root(value: Item) -> (r: Tree<Item>)
        ensures
            r.value == value,
            r.children@.len() == 0,
    {
        Tree::new(value)
    }

    /// Adds a leaf carrying `child` after the existing children.
    pub fn add_child(&mut self, child: Item)
        ensures
            final(self).value == old(self).value,
            final(self).children@.len() == old(self).children@.len() + 1,
            forall|i: int|
                0 <= i < old(self).children@.len() ==> final(self).children@[i]
                    == old(self).children@[i],
            final(self).children@.last().value == child,
            final(self).children@.last().children@.len() == 0,
    {
        self.children.push(Tree::new(child));
    }
}

} // verus!
