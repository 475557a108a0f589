//! The schema-less tree that mirrors a configuration value.

use vstd::prelude::*;

verus! {

/// A node of the configuration tree.
///
/// A number is held as its canonical text, so that integers of every width
/// and fractional numbers are carried without loss.
#[derive(Debug, PartialEq, Eq)]
pub enum Tree {
    Null,
    Bool(bool),
    Number(String),
    String(String),
    Sequence(Vec<Tree>),
    /// Entries in document order, each a key and the value stored under it.
    /// A mapping is meant to hold no key twice: see [`unique_keys`].
    Mapping(Vec<(Tree, Tree)>),
    /// A tag and the value that carries it.
    Tagged(String, Box<Tree>),
}

/// The mathematical model of a [`Tree`].
pub ghost enum Node {
    Null,
    Bool(bool),
    Number(Seq<char>),
    String(Seq<char>),
    Sequence(Seq<Node>),
    Mapping(Seq<(Node, Node)>),
    Tagged(Seq<char>, Box<Node>),
}

/// Whether no mapping of the tree holds a key twice.
pub open spec fn unique_keys(tree: Node) -> bool
    decreases tree,
{
    match tree {
        Node::Sequence(items) => forall|i: int|
            #![trigger items[i]]
            0 <= i < items.len() ==> unique_keys(items[i]),
        Node::Mapping(entries) => {
            &&& (forall|i: int, j: int|
                #![trigger entries[i], entries[j]]
                0 <= i < j < entries.len() ==> entries[i].0 != entries[j].0)
            &&& (forall|i: int|
                #![trigger entries[i]]
                0 <= i < entries.len() ==> unique_keys(entries[i].0) && unique_keys(entries[i].1))
        },
        Node::Tagged(_, inner) => unique_keys(*inner),
        _ => true,
    }
}

impl Tree {
    /// The tree that this value holds.
    pub open spec fn node(self) -> Node
        decreases self,
    {
        match self {
            Tree::Null => Node::Null,
            Tree::Bool(b) => Node::Bool(b),
            Tree::Number(n) => Node::Number(n@),
            Tree::String(s) => Node::String(s@),
            Tree::Sequence(items) => Node::Sequence(
                Seq::new(
                    items.len() as nat,
                    |i: int|
                        if 0 <= i < items.len() {
                            items[i].node()
                        } else {
                            Node::Null
                        },
                ),
            ),
            Tree::Mapping(entries) => Node::Mapping(
                Seq::new(
                    entries.len() as nat,
                    |i: int|
                        if 0 <= i < entries.len() {
                            (entries[i].0.node(), entries[i].1.node())
                        } else {
                            (Node::Null, Node::Null)
                        },
                ),
            ),
            Tree::Tagged(tag, inner) => Node::Tagged(tag@, Box::new((*inner).node())),
        }
    }
}

impl View for Tree {
    type V = Node;

    open spec fn view(&self) -> Node {
        self.node()
    }
}

impl Tree {
    /// A deep copy of the tree.
    #[verifier::loop_isolation(false)]
    pub fn duplicate(&self) -> (copy: Tree)
        ensures
            copy@ == self@,
        decreases self,
    {
        match self {
            Tree::Null => Tree::Null,
            Tree::Bool(b) => Tree::Bool(*b),
            Tree::Number(n) => Tree::Number(n.clone()),
            Tree::String(s) => Tree::String(s.clone()),
            Tree::Sequence(items) => {
                let mut copies: Vec<Tree> = Vec::new();
                let mut i: usize = 0;
                while i < items.len()
                    invariant
                        i <= items.len(),
                        copies.len() == i,
                        forall|j: int| 0 <= j < i ==> copies[j]@ == items[j]@,
                    decreases items.len() - i,
                {
                    copies.push(items[i].duplicate());
                    i += 1;
                }
                let copy = Tree::Sequence(copies);
                assert(copy@->Sequence_0 =~= self@->Sequence_0);
                copy
            },
            Tree::Mapping(entries) => {
                let mut copies: Vec<(Tree, Tree)> = Vec::new();
                let mut i: usize = 0;
                while i < entries.len()
                    invariant
                        i <= entries.len(),
                        copies.len() == i,
                        forall|j: int|
                            0 <= j < i ==> copies[j].0@ == entries[j].0@ && copies[j].1@
                                == entries[j].1@,
                    decreases entries.len() - i,
                {
                    copies.push((entries[i].0.duplicate(), entries[i].1.duplicate()));
                    i += 1;
                }
                let copy = Tree::Mapping(copies);
                assert(copy@->Mapping_0 =~= self@->Mapping_0);
                copy
            },
            Tree::Tagged(tag, inner) => Tree::Tagged(tag.clone(), Box::new(inner.duplicate())),
        }
    }
}

} // verus!
