//! The tree patcher: replaces the node of a tree that an address names.
//!
//! The patcher computes addresses by itself. It starts at the root with the
//! prefix and descends into mappings only, extending the address by the
//! upper-cased key of each entry. The first node, in document order, whose
//! address is the target is replaced. Sequences and scalars are never
//! entered: they can be replaced as a whole, not element by element.

use vstd::prelude::*;
use crate::address::{extend, extended, same_text, to_upper, uppercased};
use crate::paths::{lemma_text_keyed_is_never_blocked, text_keyed};
use crate::tree::{Node, Tree};

verus! {

/// What a search for a target address does to a tree.
pub ghost enum Patched {
    /// A node had the target address and was replaced; the tree is now this.
    Replaced(Node),
    /// No node has the target address.
    Missing,
    /// Before any node with the target address, the search met a mapping
    /// key that is not a string, so that the entry has no address.
    Blocked,
}

/// The search for `target` in `tree`, whose root has the address `cur`.
pub open spec fn patched(tree: Node, cur: Seq<char>, target: Seq<char>, fragment: Node) -> Patched
    decreases tree, 0nat,
{
    if cur == target {
        Patched::Replaced(fragment)
    } else {
        match tree {
            Node::Mapping(entries) => patched_from(entries, 0, cur, target, fragment),
            _ => Patched::Missing,
        }
    }
}

/// The search for `target` in the entries of a mapping from the entry
/// `from` on, where the mapping has the address `cur`.
pub open spec fn patched_from(
    entries: Seq<(Node, Node)>,
    from: int,
    cur: Seq<char>,
    target: Seq<char>,
    fragment: Node,
) -> Patched
    decreases entries, entries.len() - from,
{
    if from < 0 || from >= entries.len() {
        Patched::Missing
    } else {
        match entries[from].0 {
            Node::String(key) => match patched(
                entries[from].1,
                extended(cur, uppercased(key)),
                target,
                fragment,
            ) {
                Patched::Replaced(child) => Patched::Replaced(
                    Node::Mapping(entries.update(from, (entries[from].0, child))),
                ),
                Patched::Missing => patched_from(entries, from + 1, cur, target, fragment),
                Patched::Blocked => Patched::Blocked,
            },
            _ => Patched::Blocked,
        }
    }
}

/// The address segment that a mapping key stands for: its upper-case form.
pub fn to_key_str(key: &Tree) -> (segment: String)
    requires
        key is String,
    ensures
        key@ matches Node::String(text) && segment@ == uppercased(text),
{
    match key {
        Tree::String(text) => to_upper(text.as_str()),
        _ => unreached(),
    }
}

/// Searches `value`, whose root has the address `cur`, for the node with
/// the address `target` and replaces it by a copy of `new_value`.
///
/// Returns `Some(true)` where a node was replaced and `Some(false)` where no
/// node has the address. Returns `None`, leaving the tree as it was, where
/// the search meets a mapping key that is not a string.
#[verifier::loop_isolation(false)]
pub fn try_find_and_update(value: &mut Tree, cur: &str, target: &str, new_value: &Tree) -> (outcome:
    Option<bool>)
    ensures
        match patched(old(value)@, cur@, target@, new_value@) {
            Patched::Replaced(tree) => outcome == Some(true) && final(value)@ == tree,
            Patched::Missing => outcome == Some(false) && final(value)@ == old(value)@,
            Patched::Blocked => outcome.is_none() && final(value)@ == old(value)@,
        },
    decreases old(value)@,
{
    if same_text(cur, target) {
        *value = new_value.duplicate();
        return Some(true);
    }
    let ghost end = *final(value);
    match value {
        Tree::Mapping(entries) => {
            let ghost before = old(value)@->Mapping_0;
            let mut i: usize = 0;
            while i < entries.len()
                invariant
                    i <= entries.len(),
                    cur@ != target@,
                    old(value)@ == Node::Mapping(before),
                    Tree::Mapping(*entries)@ == Node::Mapping(before),
                    end == Tree::Mapping(*final(entries)),
                    patched(old(value)@, cur@, target@, new_value@) == patched_from(
                        before,
                        i as int,
                        cur@,
                        target@,
                        new_value@,
                    ),
                decreases entries.len() - i,
            {
                let ghost now = Tree::Mapping(*entries)@->Mapping_0;
                assert(now[i as int] == (entries[i as int].0@, entries[i as int].1@));
                let key = match &entries[i].0 {
                    Tree::String(_) => to_key_str(&entries[i].0),
                    _ => {
                        return None;
                    },
                };
                let address = extend(cur, key.as_str());
                let found = try_find_and_update(
                    &mut entries[i].1,
                    address.as_str(),
                    target,
                    new_value,
                );
                match found {
                    Some(true) => {
                        assert(Tree::Mapping(*entries)@->Mapping_0 =~= before.update(
                            i as int,
                            (before[i as int].0, entries[i as int].1@),
                        ));
                        return Some(true);
                    },
                    None => {
                        assert(Tree::Mapping(*entries)@->Mapping_0 =~= before);
                        return None;
                    },
                    Some(false) => {
                        assert(Tree::Mapping(*entries)@->Mapping_0 =~= before);
                    },
                }
                i += 1;
            }
            Some(false)
        },
        _ => Some(false),
    }
}

/// Searches `value`, whose root has the address `cur`, for the node with
/// the address `target` and replaces it by a copy of `new_value`. Returns
/// whether a node was replaced.
///
/// The search must not meet a mapping key that is not a string.
pub fn find_and_update(value: &mut Tree, cur: &str, target: &str, new_value: &Tree) -> (replaced:
    bool)
    requires
        !(patched(old(value)@, cur@, target@, new_value@) is Blocked),
    ensures
        match patched(old(value)@, cur@, target@, new_value@) {
            Patched::Replaced(tree) => replaced && final(value)@ == tree,
            _ => !replaced && final(value)@ == old(value)@,
        },
{
    match try_find_and_update(value, cur, target, new_value) {
        Some(replaced) => replaced,
        None => unreached(),
    }
}

/// Whether every mapping that a search can reach has strings for keys.
#[verifier::loop_isolation(false)]
pub fn has_text_keys(tree: &Tree) -> (ok: bool)
    ensures
        ok == text_keyed(tree@),
    decreases tree,
{
    match tree {
        Tree::Mapping(entries) => {
            let ghost nodes = tree@->Mapping_0;
            let mut i: usize = 0;
            while i < entries.len()
                invariant
                    i <= entries.len(),
                    forall|j: int|
                        0 <= j < i ==> (#[trigger] nodes[j]).0 is String && text_keyed(nodes[j].1),
                decreases entries.len() - i,
            {
                assert(nodes[i as int] == (entries[i as int].0@, entries[i as int].1@));
                let key_is_text = match &entries[i].0 {
                    Tree::String(_) => true,
                    _ => false,
                };
                if !key_is_text || !has_text_keys(&entries[i].1) {
                    return false;
                }
                i += 1;
            }
            true
        },
        _ => true,
    }
}

/// Searches `value` as [`find_and_update`] does, where every mapping that
/// the search can reach has strings for keys. Returns `None`, leaving the
/// tree as it was, where one has not.
pub fn find_and_update_text_keyed(
    value: &mut Tree,
    cur: &str,
    target: &str,
    new_value: &Tree,
) -> (outcome: Option<bool>)
    ensures
        outcome is Some <==> text_keyed(old(value)@),
        match outcome {
            Some(replaced) => match patched(old(value)@, cur@, target@, new_value@) {
                Patched::Replaced(tree) => replaced && final(value)@ == tree,
                _ => !replaced && final(value)@ == old(value)@,
            },
            None => final(value)@ == old(value)@,
        },
{
    if has_text_keys(value) {
        proof {
            lemma_text_keyed_is_never_blocked(value@, cur@, target@, new_value@);
        }
        Some(find_and_update(value, cur, target, new_value))
    } else {
        None
    }
}

} // verus!
