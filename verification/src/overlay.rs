//! The overlay itself: the walk over a shape that applies the overrides.
//!
//! The walk visits the nodes of a shape from the root, field by field in the
//! order of declaration. At every node that is not a record it makes an
//! overlay check: it notes the address of the node, looks the address up in
//! the environment and, where a variable is set, replaces the node of the
//! tree that has the address by what the variable's text reads as.

use vstd::prelude::*;
use vstd::hash_set::StringHashSet;
use crate::address::{join, joined, texts, to_upper, uppercased};
use crate::env::{lookup, looked_up, Found, Lookup, Variable};
use crate::error::{Error, Failure};
use crate::patch::{patched, try_find_and_update, Patched};
use crate::shape::{addresses, field_addresses, Shape};
use crate::tree::{Node, Tree};
use crate::yaml::{parse, parsed};

verus! {

/// What one overlay has done so far.
pub ghost struct State {
    /// The tree, with the overrides applied so far.
    pub tree: Node,
    /// Every address that has been checked.
    pub seen: Set<Seq<char>>,
    /// The addresses that were checked again after their first check, one
    /// for each such check, in the order of the checks.
    pub repeated: Seq<Seq<char>>,
}

/// Where a run of overlay checks ends: the state it leaves, and the failure
/// that stopped it, if one did.
pub ghost struct Checked {
    pub state: State,
    pub failure: Option<Failure>,
}

/// The state at the start of an overlay of `tree`.
pub open spec fn initial(tree: Node) -> State {
    State { tree, seen: Set::empty(), repeated: Seq::empty() }
}

/// The state after `address` has been noted.
pub open spec fn observed(state: State, address: Seq<char>) -> State {
    State {
        tree: state.tree,
        seen: state.seen.insert(address),
        repeated: if state.seen.contains(address) {
            state.repeated.push(address)
        } else {
            state.repeated
        },
    }
}

/// The tree that the text of a variable stands for. The empty text stands
/// for the null value; every other text is read as a document.
pub open spec fn fragment_of(text: Seq<char>) -> Result<Node, Seq<char>> {
    if text.len() == 0 {
        Ok(Node::Null)
    } else {
        parsed(text)
    }
}

/// One overlay check at `address`, in a tree whose root has the address
/// `prefix`.
pub open spec fn checked(state: State, prefix: Seq<char>, address: Seq<char>, env: Seq<Variable>) -> Checked {
    let noted = observed(state, address);
    match looked_up(env, address) {
        Found::Absent => Checked { state: noted, failure: None },
        Found::Failed(reason) => Checked { state: noted, failure: Some(Failure::Var(reason)) },
        Found::Present(text) => match fragment_of(text) {
            Err(message) => Checked {
                state: noted,
                failure: Some(Failure::Unpack(address, message)),
            },
            Ok(fragment) => match patched(noted.tree, prefix, address, fragment) {
                Patched::Replaced(tree) => Checked {
                    state: State { tree, seen: noted.seen, repeated: noted.repeated },
                    failure: None,
                },
                Patched::Missing => Checked { state: noted, failure: None },
                Patched::Blocked => Checked { state: noted, failure: Some(Failure::Unsupported) },
            },
        },
    }
}

/// The overlay checks at `addresses`, one after the other, up to the first
/// that fails.
pub open spec fn overlaid(
    state: State,
    prefix: Seq<char>,
    addresses: Seq<Seq<char>>,
    env: Seq<Variable>,
) -> Checked
    decreases addresses.len(),
{
    if addresses.len() == 0 {
        Checked { state, failure: None }
    } else {
        let first = checked(state, prefix, addresses[0], env);
        if first.failure is Some {
            first
        } else {
            overlaid(first.state, prefix, addresses.drop_first(), env)
        }
    }
}

/// The overlay of the environment onto `tree`, the tree of a value of the
/// shape `shape`, under the prefix `prefix`.
pub open spec fn overlay(prefix: Seq<char>, shape: Shape, tree: Node, env: Seq<Variable>) -> Checked {
    overlaid(
        initial(tree),
        uppercased(prefix),
        addresses(shape, seq![uppercased(prefix)]),
        env,
    )
}

/// A run of checks over `first + second` is the run over `first`, followed,
/// where that did not fail, by the run over `second`.
pub proof fn lemma_overlaid_concat(
    state: State,
    prefix: Seq<char>,
    first: Seq<Seq<char>>,
    second: Seq<Seq<char>>,
    env: Seq<Variable>,
)
    ensures
        overlaid(state, prefix, first + second, env) == ({
            let head = overlaid(state, prefix, first, env);
            if head.failure is Some {
                head
            } else {
                overlaid(head.state, prefix, second, env)
            }
        }),
    decreases first.len(),
{
    if first.len() == 0 {
        assert(first + second =~= second);
    } else {
        let step = checked(state, prefix, first[0], env);
        assert((first + second)[0] == first[0]);
        assert((first + second).drop_first() =~= first.drop_first() + second);
        if step.failure is None {
            lemma_overlaid_concat(step.state, prefix, first.drop_first(), second, env);
        }
    }
}

/// A run over a single address is the check at that address.
pub proof fn lemma_overlaid_single(
    state: State,
    prefix: Seq<char>,
    address: Seq<char>,
    env: Seq<Variable>,
)
    ensures
        overlaid(state, prefix, seq![address], env) == checked(state, prefix, address, env),
{
    let only = seq![address];
    assert(only.drop_first() =~= Seq::<Seq<char>>::empty());
    let step = checked(state, prefix, address, env);
    assert(overlaid(step.state, prefix, only.drop_first(), env) == Checked {
        state: step.state,
        failure: None,
    });
}

/// The working state of one overlay: the path to the node that the walk is
/// at, the addresses checked so far, and the tree.
pub struct Serializer {
    curpath: Vec<String>,
    paths: StringHashSet,
    repeated: Vec<String>,
    value: Tree,
}

impl Serializer {
    /// The segments of the path, the prefix first.
    pub closed spec fn segments(&self) -> Seq<Seq<char>> {
        texts(self.curpath@)
    }

    /// What the overlay has done so far.
    pub closed spec fn state(&self) -> State {
        State { tree: self.value@, seen: self.paths@, repeated: texts(self.repeated@) }
    }

    /// The path always starts with the prefix.
    pub open spec fn wf(&self) -> bool {
        self.segments().len() >= 1
    }

    /// Starts an overlay of `value` under `prefix`.
    pub fn new(prefix: &str, value: Tree) -> (fresh: Self)
        ensures
            fresh.wf(),
            fresh.segments() == seq![uppercased(prefix@)],
            fresh.state() == initial(value@),
    {
        let mut curpath: Vec<String> = Vec::new();
        curpath.push(to_upper(prefix));
        let fresh = Serializer { curpath, paths: StringHashSet::new(), repeated: Vec::new(), value };
        assert(fresh.segments() =~= seq![uppercased(prefix@)]);
        assert(texts(fresh.repeated@) =~= Seq::<Seq<char>>::empty());
        fresh
    }

    /// Steps into the field `name`: its upper-case form becomes the last
    /// segment of the path.
    pub fn enter(&mut self, name: &str)
        ensures
            final(self).segments() == old(self).segments().push(uppercased(name@)),
            final(self).state() == old(self).state(),
    {
        self.curpath.push(to_upper(name));
        assert(self.segments() =~= old(self).segments().push(uppercased(name@)));
    }

    /// Steps out of the field that was entered last.
    pub fn exit(&mut self)
        requires
            old(self).segments().len() > 1,
        ensures
            final(self).segments() == old(self).segments().drop_last(),
            final(self).state() == old(self).state(),
    {
        self.curpath.pop();
        assert(self.segments() =~= old(self).segments().drop_last());
    }

    /// The address of the node that the walk is at.
    pub fn path(&self) -> (address: String)
        ensures
            address@ == joined(self.segments()),
    {
        join(&self.curpath)
    }

    /// Notes that `address` is checked, and returns whether this is its
    /// first check. An address that is checked again is recorded as
    /// ambiguous.
    pub fn observe(&mut self, address: &str) -> (fresh: bool)
        ensures
            final(self).segments() == old(self).segments(),
            final(self).state() == observed(old(self).state(), address@),
            fresh == !old(self).state().seen.contains(address@),
    {
        let fresh = self.paths.insert(address.to_owned());
        if !fresh {
            self.repeated.push(address.to_owned());
            assert(texts(self.repeated@) =~= texts(old(self).repeated@).push(address@));
        }
        fresh
    }

    /// The overlay check at the node that the walk is at.
    ///
    /// Fails with `VarError` where the variable cannot be read, with
    /// `UnpackError`, which holds the address and the reader's message, where
    /// its text is no document, and with `Unsupported` where the search for
    /// the node meets a mapping key that is not a string. Where no variable is set, or no node has the address, the tree
    /// stays as it is.
    pub fn load(&mut self, env: &Vec<Variable>) -> (result: Result<(), Error>)
        requires
            old(self).wf(),
        ensures
            final(self).segments() == old(self).segments(),
            ({
                let step = checked(
                    old(self).state(),
                    old(self).segments()[0],
                    joined(old(self).segments()),
                    env@,
                );
                &&& final(self).state() == step.state
                &&& match result {
                    Ok(()) => step.failure is None,
                    Err(error) => step.failure == Some(error@),
                }
            }),
    {
        let path = self.path();
        self.observe(path.as_str());
        match lookup(env, path.as_str()) {
            Lookup::Absent => Ok(()),
            Lookup::Failed(reason) => Err(Error::VarError(reason)),
            Lookup::Present(text) => {
                let fragment = if text.as_str().is_empty() {
                    Tree::Null
                } else {
                    match parse(text.as_str()) {
                        Ok(tree) => tree,
                        Err(message) => {
                            return Err(Error::UnpackError(path, message));
                        },
                    }
                };
                let prefix = self.curpath[0].clone();
                match try_find_and_update(
                    &mut self.value,
                    prefix.as_str(),
                    path.as_str(),
                    &fragment,
                ) {
                    Some(_) => Ok(()),
                    None => Err(Error::Unsupported),
                }
            },
        }
    }

    /// Walks `shape` from the node that the walk is at and makes the overlay
    /// check at each of its nodes that is not a record, up to the first check
    /// that fails.
    #[verifier::loop_isolation(false)]
    pub fn walk(&mut self, shape: &Shape, env: &Vec<Variable>) -> (result: Result<(), Error>)
        requires
            old(self).wf(),
        ensures
            final(self).segments() == old(self).segments(),
            ({
                let run = overlaid(
                    old(self).state(),
                    old(self).segments()[0],
                    addresses(*shape, old(self).segments()),
                    env@,
                );
                &&& final(self).state() == run.state
                &&& match result {
                    Ok(()) => run.failure is None,
                    Err(error) => run.failure == Some(error@),
                }
            }),
        decreases *shape,
    {
        let ghost segments = self.segments();
        let ghost prefix = segments[0];
        match shape {
            Shape::Leaf => {
                proof {
                    lemma_overlaid_single(self.state(), prefix, joined(segments), env@);
                }
                self.load(env)
            },
            Shape::Record(fields) => {
                let mut i: usize = 0;
                while i < fields.len()
                    invariant
                        i <= fields.len(),
                        self.segments() == segments,
                        overlaid(
                            old(self).state(),
                            prefix,
                            field_addresses(fields@, 0, segments),
                            env@,
                        ) == overlaid(
                            self.state(),
                            prefix,
                            field_addresses(fields@, i as int, segments),
                            env@,
                        ),
                    decreases fields.len() - i,
                {
                    let ghost inner = segments.push(uppercased(fields[i as int].name@));
                    proof {
                        vstd::std_specs::vec::axiom_vec_index_decreases(*fields, i as int);
                        lemma_overlaid_concat(
                            self.state(),
                            prefix,
                            addresses(fields[i as int].shape, inner),
                            field_addresses(fields@, i + 1, segments),
                            env@,
                        );
                    }
                    self.enter(fields[i].name.as_str());
                    let result = self.walk(&fields[i].shape, env);
                    assert(inner.drop_last() =~= segments);
                    self.exit();
                    if result.is_err() {
                        return result;
                    }
                    i += 1;
                }
                Ok(())
            },
        }
    }

    /// The tree, with the overrides applied so far.
    pub fn value(&self) -> (tree: &Tree)
        ensures
            tree@ == self.state().tree,
    {
        &self.value
    }

    /// The addresses that were checked more than once, one for each check
    /// after the first, in the order of the checks.
    pub fn ambiguous(&self) -> (repeated: &Vec<String>)
        ensures
            texts(repeated@) == self.state().repeated,
    {
        &self.repeated
    }

    /// Ends the overlay and hands out the tree.
    pub fn into_value(self) -> (tree: Tree)
        ensures
            tree@ == self.state().tree,
    {
        self.value
    }

    /// Ends the overlay and hands out the tree and the addresses that were
    /// checked more than once.
    pub fn finish(self) -> (parts: (Tree, Vec<String>))
        ensures
            parts.0@ == self.state().tree,
            texts(parts.1@) == self.state().repeated,
    {
        (self.value, self.repeated)
    }
}

/// Overlays the environment onto `value`, the tree of a configuration value
/// of the shape `shape`, under the prefix `pfx`.
///
/// Returns the tree with every override applied, or the failure of the
/// first overlay check that failed, in which case no tree is returned. With
/// either come the ambiguous addresses: those that were checked more than
/// once, one for each check after the first, in the order of the checks.
pub fn load(pfx: &str, shape: &Shape, value: Tree, env: &Vec<Variable>) -> (result: (
    Result<Tree, Error>,
    Vec<String>,
))
    ensures
        ({
            let run = overlay(pfx@, *shape, value@, env@);
            &&& texts(result.1@) == run.state.repeated
            &&& match result.0 {
                Ok(tree) => run.failure is None && tree@ == run.state.tree,
                Err(error) => run.failure == Some(error@),
            }
        }),
{
    let mut ser = Serializer::new(pfx, value);
    let walked = ser.walk(shape, env);
    let (tree, repeated) = ser.finish();
    match walked {
        Ok(()) => (Ok(tree), repeated),
        Err(error) => (Err(error), repeated),
    }
}

} // verus!
