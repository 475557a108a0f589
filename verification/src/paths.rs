//! Paths into a tree, and what the patcher does in their terms.
//!
//! A path leads from the root of a tree to one of its nodes: each step is
//! the index of an entry of the mapping that the path has reached. The
//! patcher replaces the first node, in document order, that a path reaches
//! and whose address is the target.

use vstd::prelude::*;
use crate::address::{all_uppercased, extended, joined, uppercased};
use crate::patch::{patched, patched_from, Patched};
use crate::tree::{unique_keys, Node};

verus! {

/// Whether `path` leads to a node of `tree` through entries of mappings
/// whose keys are strings.
pub open spec fn reachable(tree: Node, path: Seq<int>) -> bool
    decreases path.len(),
{
    path.len() == 0 || match tree {
        Node::Mapping(entries) => {
            &&& 0 <= path[0] < entries.len()
            &&& entries[path[0]].0 is String
            &&& reachable(entries[path[0]].1, path.drop_first())
        },
        _ => false,
    }
}

/// The keys of the entries that `path` goes through, from the root down.
pub open spec fn keys_at(tree: Node, path: Seq<int>) -> Seq<Seq<char>>
    recommends
        reachable(tree, path),
    decreases path.len(),
{
    if path.len() == 0 {
        Seq::empty()
    } else {
        let entry = tree->Mapping_0[path[0]];
        seq![entry.0->String_0] + keys_at(entry.1, path.drop_first())
    }
}

/// The address of the node of `tree` that `path` leads to, where the root
/// has the address `cur`.
pub open spec fn address_at(tree: Node, cur: Seq<char>, path: Seq<int>) -> Seq<char>
    recommends
        reachable(tree, path),
    decreases path.len(),
{
    if path.len() == 0 {
        cur
    } else {
        let entry = tree->Mapping_0[path[0]];
        address_at(entry.1, extended(cur, uppercased(entry.0->String_0)), path.drop_first())
    }
}

/// The tree with the node that `path` leads to replaced by `fragment`.
pub open spec fn replaced_at(tree: Node, path: Seq<int>, fragment: Node) -> Node
    recommends
        reachable(tree, path),
    decreases path.len(),
{
    if path.len() == 0 {
        fragment
    } else {
        let entries = tree->Mapping_0;
        let entry = entries[path[0]];
        Node::Mapping(
            entries.update(path[0], (entry.0, replaced_at(entry.1, path.drop_first(), fragment))),
        )
    }
}

/// Document order: whether the node at `earlier` comes before the node at
/// `later`. A node comes before everything below it, and the entries of a
/// mapping come in their order.
pub open spec fn precedes(earlier: Seq<int>, later: Seq<int>) -> bool
    decreases earlier.len(),
{
    if later.len() == 0 {
        false
    } else if earlier.len() == 0 {
        true
    } else if earlier[0] != later[0] {
        earlier[0] < later[0]
    } else {
        precedes(earlier.drop_first(), later.drop_first())
    }
}

/// Whether every mapping that a path can reach has strings for keys.
pub open spec fn text_keyed(tree: Node) -> bool
    decreases tree,
{
    match tree {
        Node::Mapping(entries) => forall|i: int|
            0 <= i < entries.len() ==> (#[trigger] entries[i]).0 is String && text_keyed(
                entries[i].1,
            ),
        _ => true,
    }
}

/// The patcher and the walk agree on addresses: the address of a node is the
/// address of the root followed by the upper-cased keys that lead to the
/// node, joined by `_`.
pub proof fn lemma_address_is_joined_keys(
    tree: Node,
    segments: Seq<Seq<char>>,
    path: Seq<int>,
)
    requires
        reachable(tree, path),
        segments.len() >= 1,
    ensures
        address_at(tree, joined(segments), path) == joined(
            segments + all_uppercased(keys_at(tree, path)),
        ),
    decreases path.len(),
{
    if path.len() == 0 {
        assert(segments + all_uppercased(keys_at(tree, path)) =~= segments);
    } else {
        let entry = tree->Mapping_0[path[0]];
        let key = uppercased(entry.0->String_0);
        let longer = segments.push(key);
        assert(longer.drop_last() =~= segments);
        assert(joined(longer) == extended(joined(segments), key));
        lemma_address_is_joined_keys(entry.1, longer, path.drop_first());
        assert(longer + all_uppercased(keys_at(entry.1, path.drop_first())) =~= segments
            + all_uppercased(keys_at(tree, path)));
    }
}

/// Where the search among the entries from `from` on finds nothing, every
/// entry from there on has a string for its key, and the search below it
/// finds nothing.
proof fn lemma_missing_from(
    entries: Seq<(Node, Node)>,
    from: int,
    cur: Seq<char>,
    target: Seq<char>,
    fragment: Node,
    at: int,
)
    requires
        0 <= from <= at < entries.len(),
        patched_from(entries, from, cur, target, fragment) is Missing,
    ensures
        entries[at].0 is String,
        patched(
            entries[at].1,
            extended(cur, uppercased(entries[at].0->String_0)),
            target,
            fragment,
        ) is Missing,
    decreases at - from,
{
    if from < at {
        lemma_missing_from(entries, from + 1, cur, target, fragment, at);
    }
}

/// Where the search finds nothing, no node that a path reaches has the
/// target address.
pub proof fn lemma_missing_means_no_node_has_the_address(
    tree: Node,
    cur: Seq<char>,
    target: Seq<char>,
    fragment: Node,
    path: Seq<int>,
)
    requires
        patched(tree, cur, target, fragment) is Missing,
        reachable(tree, path),
    ensures
        address_at(tree, cur, path) != target,
    decreases path.len(),
{
    if path.len() > 0 {
        let entries = tree->Mapping_0;
        let entry = entries[path[0]];
        lemma_missing_from(entries, 0, cur, target, fragment, path[0]);
        lemma_missing_means_no_node_has_the_address(
            entry.1,
            extended(cur, uppercased(entry.0->String_0)),
            target,
            fragment,
            path.drop_first(),
        );
    }
}

/// Where the search replaces a node, that node is the first, in document
/// order, whose address is the target, and nothing else changes. The lemma
/// returns the path to the node.
pub proof fn lemma_replaced_is_first_with_the_address(
    tree: Node,
    cur: Seq<char>,
    target: Seq<char>,
    fragment: Node,
) -> (path: Seq<int>)
    requires
        patched(tree, cur, target, fragment) is Replaced,
    ensures
        reachable(tree, path),
        address_at(tree, cur, path) == target,
        patched(tree, cur, target, fragment) == Patched::Replaced(
            replaced_at(tree, path, fragment),
        ),
        forall|earlier: Seq<int>|
            reachable(tree, earlier) && #[trigger] precedes(earlier, path) ==> address_at(
                tree,
                cur,
                earlier,
            ) != target,
    decreases tree, 0nat,
{
    if cur == target {
        Seq::empty()
    } else {
        let entries = tree->Mapping_0;
        let path = lemma_replaced_from(entries, 0, cur, target, fragment);
        assert forall|earlier: Seq<int>|
            reachable(tree, earlier) && #[trigger] precedes(earlier, path) implies address_at(
            tree,
            cur,
            earlier,
        ) != target by {
            if earlier.len() > 0 {
                assert(earlier[0] >= 0);
            }
        }
        path
    }
}

/// The same for the search among the entries of a mapping from `from` on.
proof fn lemma_replaced_from(
    entries: Seq<(Node, Node)>,
    from: int,
    cur: Seq<char>,
    target: Seq<char>,
    fragment: Node,
) -> (path: Seq<int>)
    requires
        0 <= from,
        patched_from(entries, from, cur, target, fragment) is Replaced,
    ensures
        path.len() > 0,
        from <= path[0] < entries.len(),
        reachable(Node::Mapping(entries), path),
        address_at(Node::Mapping(entries), cur, path) == target,
        patched_from(entries, from, cur, target, fragment) == Patched::Replaced(
            replaced_at(Node::Mapping(entries), path, fragment),
        ),
        forall|earlier: Seq<int>|
            earlier.len() > 0 && earlier[0] >= from && reachable(Node::Mapping(entries), earlier)
                && #[trigger] precedes(earlier, path) ==> address_at(
                Node::Mapping(entries),
                cur,
                earlier,
            ) != target,
    decreases entries, entries.len() - from,
{
    let tree = Node::Mapping(entries);
    let key = entries[from].0->String_0;
    let below = extended(cur, uppercased(key));
    let child = entries[from].1;
    match patched(child, below, target, fragment) {
        Patched::Replaced(_) => {
            let rest = lemma_replaced_is_first_with_the_address(child, below, target, fragment);
            let path = seq![from] + rest;
            assert(path.drop_first() =~= rest);
            assert forall|earlier: Seq<int>|
                earlier.len() > 0 && earlier[0] >= from && reachable(tree, earlier)
                    && #[trigger] precedes(earlier, path) implies address_at(tree, cur, earlier)
                != target by {
                assert(earlier[0] == from);
                assert(precedes(earlier.drop_first(), rest));
            }
            path
        },
        _ => {
            let path = lemma_replaced_from(entries, from + 1, cur, target, fragment);
            assert forall|earlier: Seq<int>|
                earlier.len() > 0 && earlier[0] >= from && reachable(tree, earlier)
                    && #[trigger] precedes(earlier, path) implies address_at(tree, cur, earlier)
                != target by {
                if earlier[0] == from {
                    lemma_missing_means_no_node_has_the_address(
                        child,
                        below,
                        target,
                        fragment,
                        earlier.drop_first(),
                    );
                }
            }
            path
        },
    }
}

/// Of two different paths, one comes before the other.
pub proof fn lemma_document_order_is_total(left: Seq<int>, right: Seq<int>)
    requires
        left != right,
    ensures
        precedes(left, right) || precedes(right, left),
    decreases left.len(),
{
    if left.len() > 0 && right.len() > 0 && left[0] == right[0] {
        if left.drop_first() == right.drop_first() {
            assert(left =~= seq![left[0]] + left.drop_first());
            assert(right =~= seq![right[0]] + right.drop_first());
        }
        lemma_document_order_is_total(left.drop_first(), right.drop_first());
    } else if left.len() == 0 && right.len() == 0 {
        assert(left =~= right);
    }
}

/// Where every mapping has strings for keys, the search is never blocked.
pub proof fn lemma_text_keyed_is_never_blocked(
    tree: Node,
    cur: Seq<char>,
    target: Seq<char>,
    fragment: Node,
)
    requires
        text_keyed(tree),
    ensures
        !(patched(tree, cur, target, fragment) is Blocked),
    decreases tree, 0nat,
{
    if cur != target {
        if let Node::Mapping(entries) = tree {
            lemma_text_keyed_from(entries, 0, cur, target, fragment);
        }
    }
}

/// The same for the search among the entries of a mapping from `from` on.
proof fn lemma_text_keyed_from(
    entries: Seq<(Node, Node)>,
    from: int,
    cur: Seq<char>,
    target: Seq<char>,
    fragment: Node,
)
    requires
        0 <= from,
        text_keyed(Node::Mapping(entries)),
    ensures
        !(patched_from(entries, from, cur, target, fragment) is Blocked),
    decreases entries, entries.len() - from,
{
    if from < entries.len() {
        let entry = entries[from];
        assert(entry.0 is String && text_keyed(entry.1));
        lemma_text_keyed_is_never_blocked(
            entry.1,
            extended(cur, uppercased(entry.0->String_0)),
            target,
            fragment,
        );
        lemma_text_keyed_from(entries, from + 1, cur, target, fragment);
    }
}

/// An override is not lost: where every mapping has strings for keys and a
/// path reaches a node with the target address, the search replaces a node.
pub proof fn lemma_node_with_the_address_is_found(
    tree: Node,
    cur: Seq<char>,
    target: Seq<char>,
    fragment: Node,
    path: Seq<int>,
)
    requires
        text_keyed(tree),
        reachable(tree, path),
        address_at(tree, cur, path) == target,
    ensures
        patched(tree, cur, target, fragment) is Replaced,
{
    lemma_text_keyed_is_never_blocked(tree, cur, target, fragment);
    if patched(tree, cur, target, fragment) is Missing {
        lemma_missing_means_no_node_has_the_address(tree, cur, target, fragment, path);
    }
}

/// The patcher replaces the first node with the target address: where a
/// path reaches a node with the target address, no node before it in
/// document order has that address, and every mapping has strings for keys,
/// that node is replaced and nothing else changes.
pub proof fn lemma_first_node_with_the_address_is_replaced(
    tree: Node,
    cur: Seq<char>,
    target: Seq<char>,
    fragment: Node,
    path: Seq<int>,
)
    requires
        text_keyed(tree),
        reachable(tree, path),
        address_at(tree, cur, path) == target,
        forall|earlier: Seq<int>|
            reachable(tree, earlier) && #[trigger] precedes(earlier, path) ==> address_at(
                tree,
                cur,
                earlier,
            ) != target,
    ensures
        patched(tree, cur, target, fragment) == Patched::Replaced(
            replaced_at(tree, path, fragment),
        ),
{
    lemma_node_with_the_address_is_found(tree, cur, target, fragment, path);
    let hit = lemma_replaced_is_first_with_the_address(tree, cur, target, fragment);
    if hit != path {
        lemma_document_order_is_total(hit, path);
        assert(precedes(hit, path) || precedes(path, hit));
    }
}

/// The patcher keeps keys unique: where no mapping of the tree or of the
/// fragment holds a key twice, none of the patched tree does.
pub proof fn lemma_patched_keeps_keys_unique(
    tree: Node,
    cur: Seq<char>,
    target: Seq<char>,
    fragment: Node,
)
    requires
        unique_keys(tree),
        unique_keys(fragment),
        patched(tree, cur, target, fragment) is Replaced,
    ensures
        unique_keys(patched(tree, cur, target, fragment)->Replaced_0),
    decreases tree, 0nat,
{
    if cur != target {
        lemma_patched_from_keeps_keys_unique(tree->Mapping_0, 0, cur, target, fragment);
    }
}

/// The same for the search among the entries of a mapping from `from` on.
proof fn lemma_patched_from_keeps_keys_unique(
    entries: Seq<(Node, Node)>,
    from: int,
    cur: Seq<char>,
    target: Seq<char>,
    fragment: Node,
)
    requires
        0 <= from,
        unique_keys(Node::Mapping(entries)),
        unique_keys(fragment),
        patched_from(entries, from, cur, target, fragment) is Replaced,
    ensures
        unique_keys(patched_from(entries, from, cur, target, fragment)->Replaced_0),
    decreases entries, entries.len() - from,
{
    let entry = entries[from];
    let below = extended(cur, uppercased(entry.0->String_0));
    let tree = Node::Mapping(entries);
    assert(tree->Mapping_0 == entries);
    match patched(entry.1, below, target, fragment) {
        Patched::Replaced(child) => {
            lemma_patched_keeps_keys_unique(entry.1, below, target, fragment);
            let after = entries.update(from, (entry.0, child));
            assert forall|i: int, j: int|
                #![trigger after[i], after[j]]
                0 <= i < j < after.len() implies after[i].0 != after[j].0 by {
                assert(after[i].0 == entries[i].0);
                assert(after[j].0 == entries[j].0);
            }
            assert forall|i: int|
                #![trigger after[i]]
                0 <= i < after.len() implies unique_keys(after[i].0) && unique_keys(
                after[i].1,
            ) by {
                assert(unique_keys(entries[i].0) && unique_keys(entries[i].1));
            }
        },
        _ => {
            lemma_patched_from_keeps_keys_unique(entries, from + 1, cur, target, fragment);
        },
    }
}

} // verus!
