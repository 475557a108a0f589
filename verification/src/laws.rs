//! What holds of every overlay.

use vstd::prelude::*;
use crate::address::{all_uppercased, joined, uppercased};
use crate::env::{looked_up, Found, Variable};
use crate::error::Failure;
use crate::overlay::{checked, fragment_of, initial, observed, overlaid, overlay, Checked, State};
use crate::patch::{patched, Patched};
use crate::yaml::parsed;
use crate::paths::{
    address_at, keys_at, lemma_address_is_joined_keys,
    lemma_first_node_with_the_address_is_replaced, lemma_patched_keeps_keys_unique, precedes,
    reachable, replaced_at, text_keyed,
};
use crate::shape::{addresses, leads_to_leaf, lemma_leaf_is_checked_under_its_names, names_at, Shape};
use crate::tree::{unique_keys, Node};

verus! {

/// Where no variable is set under any of the addresses, the run of checks
/// does not fail and leaves the tree as it was.
pub proof fn lemma_unset_addresses_keep_tree(
    state: State,
    prefix: Seq<char>,
    addresses: Seq<Seq<char>>,
    env: Seq<Variable>,
)
    requires
        forall|i: int| 0 <= i < addresses.len() ==> looked_up(env, #[trigger] addresses[i]) is Absent,
    ensures
        overlaid(state, prefix, addresses, env).failure is None,
        overlaid(state, prefix, addresses, env).state.tree == state.tree,
    decreases addresses.len(),
{
    if addresses.len() > 0 {
        let step = checked(state, prefix, addresses[0], env);
        let rest = addresses.drop_first();
        assert forall|i: int| 0 <= i < rest.len() implies looked_up(env, #[trigger] rest[i]) is Absent by {
            assert(rest[i] == addresses[i + 1]);
        }
        lemma_unset_addresses_keep_tree(step.state, prefix, rest, env);
    }
}

/// Identity without overrides: where no variable is set under any address
/// of the shape, the overlay succeeds and returns the tree that it was
/// given.
pub proof fn lemma_identity_without_overrides(
    prefix: Seq<char>,
    shape: Shape,
    tree: Node,
    env: Seq<Variable>,
)
    requires
        forall|i: int|
            0 <= i < addresses(shape, seq![uppercased(prefix)]).len() ==> looked_up(
                env,
                #[trigger] addresses(shape, seq![uppercased(prefix)])[i],
            ) is Absent,
    ensures
        overlay(prefix, shape, tree, env) == (Checked {
            state: overlay(prefix, shape, tree, env).state,
            failure: None,
        }),
        overlay(prefix, shape, tree, env).state.tree == tree,
{
    lemma_unset_addresses_keep_tree(
        initial(tree),
        uppercased(prefix),
        addresses(shape, seq![uppercased(prefix)]),
        env,
    );
}

/// An override replaces its field: take a field of the shape that is not a
/// record, and the node of the tree that the same names lead to. The walk
/// checks the field under an address, and where a variable is set under that
/// address, its text reads as a tree, every mapping has strings for keys and
/// no node before that one has the same address, the check puts the tree
/// that the text reads as in the place of that node and changes nothing
/// else.
pub proof fn lemma_override_replaces_its_field(
    prefix: Seq<char>,
    shape: Shape,
    steps: Seq<int>,
    state: State,
    path: Seq<int>,
    env: Seq<Variable>,
    text: Seq<char>,
    fragment: Node,
)
    requires
        leads_to_leaf(shape, steps),
        reachable(state.tree, path),
        keys_at(state.tree, path) == names_at(shape, steps),
        text_keyed(state.tree),
        forall|earlier: Seq<int>|
            reachable(state.tree, earlier) && #[trigger] precedes(earlier, path) ==> address_at(
                state.tree,
                uppercased(prefix),
                earlier,
            ) != address_at(state.tree, uppercased(prefix), path),
        looked_up(env, address_at(state.tree, uppercased(prefix), path)) == Found::Present(text),
        fragment_of(text) == Ok::<Node, Seq<char>>(fragment),
    ensures
        ({
            let address = address_at(state.tree, uppercased(prefix), path);
            &&& address == joined(
                seq![uppercased(prefix)] + all_uppercased(names_at(shape, steps)),
            )
            &&& addresses(shape, seq![uppercased(prefix)]).contains(address)
            &&& checked(state, uppercased(prefix), address, env) == Checked {
                state: State {
                    tree: replaced_at(state.tree, path, fragment),
                    seen: observed(state, address).seen,
                    repeated: observed(state, address).repeated,
                },
                failure: None,
            }
        }),
{
    let root = seq![uppercased(prefix)];
    let address = address_at(state.tree, uppercased(prefix), path);
    assert(joined(root) == uppercased(prefix));
    lemma_address_is_joined_keys(state.tree, root, path);
    lemma_leaf_is_checked_under_its_names(shape, root, steps);
    lemma_first_node_with_the_address_is_replaced(
        state.tree,
        uppercased(prefix),
        address,
        fragment,
        path,
    );
}

/// A node that is not a mapping is replaced as a whole or not at all: the
/// search never enters a sequence or a scalar.
pub proof fn lemma_only_mappings_are_entered(
    tree: Node,
    cur: Seq<char>,
    target: Seq<char>,
    fragment: Node,
)
    requires
        !(tree is Mapping),
    ensures
        patched(tree, cur, target, fragment) == if cur == target {
            Patched::Replaced(fragment)
        } else {
            Patched::Missing
        },
{
}

/// A node whose address is the target is replaced by the fragment, whatever
/// it held.
pub proof fn lemma_target_is_replaced_whole(tree: Node, target: Seq<char>, fragment: Node)
    ensures
        patched(tree, target, target, fragment) == Patched::Replaced(fragment),
{
}

/// The empty text sets a node to null: a variable that is set to the empty
/// text never fails to be read, and the node at its address, if there is
/// one, becomes the null value.
pub proof fn lemma_empty_text_is_null(
    state: State,
    prefix: Seq<char>,
    address: Seq<char>,
    env: Seq<Variable>,
)
    requires
        looked_up(env, address) == Found::Present(Seq::<char>::empty()),
    ensures
        ({
            let step = checked(state, prefix, address, env);
            match patched(state.tree, prefix, address, Node::Null) {
                Patched::Replaced(tree) => step.failure is None && step.state.tree == tree,
                Patched::Missing => step.failure is None && step.state.tree == state.tree,
                Patched::Blocked => step.failure == Some(Failure::Unsupported) && step.state.tree
                    == state.tree,
            }
        }),
{
}

/// A text that is no document is reported under its address: where the
/// variable at an address holds a text that is not empty and that the reader
/// refuses, the check fails with that address and the reader's message, and
/// the tree is as it was.
pub proof fn lemma_refused_text_is_reported_with_its_address(
    state: State,
    prefix: Seq<char>,
    address: Seq<char>,
    env: Seq<Variable>,
    text: Seq<char>,
    message: Seq<char>,
)
    requires
        looked_up(env, address) == Found::Present(text),
        text.len() > 0,
        parsed(text) == Err::<Node, Seq<char>>(message),
    ensures
        checked(state, prefix, address, env).failure == Some(Failure::Unpack(address, message)),
        checked(state, prefix, address, env).state.tree == state.tree,
{
}

/// A check keeps keys unique: where no mapping of the tree holds a key
/// twice, and none of the tree that the variable's text reads as, none of
/// the tree after the check does.
pub proof fn lemma_check_keeps_keys_unique(
    state: State,
    prefix: Seq<char>,
    address: Seq<char>,
    env: Seq<Variable>,
)
    requires
        unique_keys(state.tree),
        looked_up(env, address) matches Found::Present(text) ==> (fragment_of(text) matches Ok(
            fragment,
        ) ==> unique_keys(fragment)),
    ensures
        unique_keys(checked(state, prefix, address, env).state.tree),
{
    if let Found::Present(text) = looked_up(env, address) {
        if let Ok(fragment) = fragment_of(text) {
            if patched(state.tree, prefix, address, fragment) is Replaced {
                lemma_patched_keeps_keys_unique(state.tree, prefix, address, fragment);
            }
        }
    }
}

/// A check that fails leaves the tree as it was.
pub proof fn lemma_failed_check_keeps_tree(
    state: State,
    prefix: Seq<char>,
    address: Seq<char>,
    env: Seq<Variable>,
)
    requires
        checked(state, prefix, address, env).failure is Some,
    ensures
        checked(state, prefix, address, env).state.tree == state.tree,
{
}

/// Failure stops the overlay: where the variable under one of the addresses
/// cannot be read, the run of checks fails, so that no tree is handed out.
pub proof fn lemma_unreadable_variable_fails(
    state: State,
    prefix: Seq<char>,
    addresses: Seq<Seq<char>>,
    env: Seq<Variable>,
    at: int,
)
    requires
        0 <= at < addresses.len(),
        looked_up(env, addresses[at]) is Failed,
    ensures
        overlaid(state, prefix, addresses, env).failure is Some,
    decreases addresses.len(),
{
    let step = checked(state, prefix, addresses[0], env);
    if step.failure is None {
        assert(at > 0);
        let rest = addresses.drop_first();
        assert(rest[at - 1] == addresses[at]);
        lemma_unreadable_variable_fails(step.state, prefix, rest, env, at - 1);
    }
}

/// Where the first address whose variable is set or unreadable is
/// unreadable, the run fails with that variable's reason, and the tree is
/// as it was.
pub proof fn lemma_first_unreadable_variable_is_reported(
    state: State,
    prefix: Seq<char>,
    addresses: Seq<Seq<char>>,
    env: Seq<Variable>,
    at: int,
)
    requires
        0 <= at < addresses.len(),
        looked_up(env, addresses[at]) is Failed,
        forall|i: int| 0 <= i < at ==> looked_up(env, #[trigger] addresses[i]) is Absent,
    ensures
        overlaid(state, prefix, addresses, env).failure == Some(
            Failure::Var(looked_up(env, addresses[at])->Failed_0),
        ),
        overlaid(state, prefix, addresses, env).state.tree == state.tree,
    decreases addresses.len(),
{
    let step = checked(state, prefix, addresses[0], env);
    if at > 0 {
        let rest = addresses.drop_first();
        assert(rest[at - 1] == addresses[at]);
        assert forall|i: int| 0 <= i < at - 1 implies looked_up(env, #[trigger] rest[i]) is Absent by {
            assert(rest[i] == addresses[i + 1]);
        }
        assert(looked_up(env, addresses[0]) is Absent);
        lemma_first_unreadable_variable_is_reported(step.state, prefix, rest, env, at - 1);
    }
}

/// A run of checks forgets nothing: every address seen before is seen
/// after, every address checked is seen after, and every report made before
/// is still there.
pub proof fn lemma_run_keeps_what_was_noted(
    state: State,
    prefix: Seq<char>,
    addresses: Seq<Seq<char>>,
    env: Seq<Variable>,
)
    ensures
        state.seen.subset_of(overlaid(state, prefix, addresses, env).state.seen),
        overlaid(state, prefix, addresses, env).failure is None ==> forall|i: int|
            0 <= i < addresses.len() ==> overlaid(state, prefix, addresses, env).state.seen.contains(
                #[trigger] addresses[i],
            ),
        state.repeated.is_prefix_of(overlaid(state, prefix, addresses, env).state.repeated),
    decreases addresses.len(),
{
    if addresses.len() > 0 {
        let step = checked(state, prefix, addresses[0], env);
        assert(step.state.seen == observed(state, addresses[0]).seen);
        assert(step.state.repeated == observed(state, addresses[0]).repeated);
        assert(state.repeated.is_prefix_of(step.state.repeated));
        if step.failure is None {
            let rest = addresses.drop_first();
            lemma_run_keeps_what_was_noted(step.state, prefix, rest, env);
            let run = overlaid(step.state, prefix, rest, env);
            if run.failure is None {
                assert forall|i: int| 0 <= i < addresses.len() implies run.state.seen.contains(
                    #[trigger] addresses[i],
                ) by {
                    if i > 0 {
                        assert(rest[i - 1] == addresses[i]);
                    }
                }
            }
        }
    }
}

/// Ambiguity is a matter of the whole overlay: where two of the addresses
/// are the same text, however far apart, and the run does not fail, the
/// second is reported.
pub proof fn lemma_repeated_address_is_reported(
    state: State,
    prefix: Seq<char>,
    addresses: Seq<Seq<char>>,
    env: Seq<Variable>,
    first: int,
    second: int,
)
    requires
        0 <= first < second < addresses.len(),
        addresses[first] == addresses[second],
        overlaid(state, prefix, addresses, env).failure is None,
    ensures
        overlaid(state, prefix, addresses, env).state.repeated.contains(addresses[second]),
    decreases addresses.len(),
{
    let step = checked(state, prefix, addresses[0], env);
    let rest = addresses.drop_first();
    assert(rest[second - 1] == addresses[second]);
    if first == 0 {
        lemma_seen_address_is_reported(step.state, prefix, rest, env, second - 1);
    } else {
        assert(rest[first - 1] == addresses[first]);
        lemma_repeated_address_is_reported(step.state, prefix, rest, env, first - 1, second - 1);
    }
}

/// An address that was seen before the run is reported when the run, not
/// failing, checks it again.
pub proof fn lemma_seen_address_is_reported(
    state: State,
    prefix: Seq<char>,
    addresses: Seq<Seq<char>>,
    env: Seq<Variable>,
    at: int,
)
    requires
        0 <= at < addresses.len(),
        state.seen.contains(addresses[at]),
        overlaid(state, prefix, addresses, env).failure is None,
    ensures
        overlaid(state, prefix, addresses, env).state.repeated.contains(addresses[at]),
    decreases addresses.len(),
{
    let step = checked(state, prefix, addresses[0], env);
    let rest = addresses.drop_first();
    let run = overlaid(step.state, prefix, rest, env);
    if at == 0 {
        lemma_run_keeps_what_was_noted(step.state, prefix, rest, env);
        let last = step.state.repeated.len() - 1;
        assert(step.state.repeated[last] == addresses[0]);
        assert(run.state.repeated[last] == addresses[0]);
    } else {
        assert(rest[at - 1] == addresses[at]);
        lemma_seen_address_is_reported(step.state, prefix, rest, env, at - 1);
    }
}

/// Nothing else is reported: where the addresses differ from one another
/// and from every address seen before, the run reports none of them.
pub proof fn lemma_distinct_addresses_are_not_reported(
    state: State,
    prefix: Seq<char>,
    addresses: Seq<Seq<char>>,
    env: Seq<Variable>,
)
    requires
        addresses.no_duplicates(),
        forall|i: int| 0 <= i < addresses.len() ==> !state.seen.contains(#[trigger] addresses[i]),
    ensures
        overlaid(state, prefix, addresses, env).state.repeated == state.repeated,
    decreases addresses.len(),
{
    if addresses.len() > 0 {
        let step = checked(state, prefix, addresses[0], env);
        let rest = addresses.drop_first();
        assert(step.state.seen == state.seen.insert(addresses[0]));
        assert(step.state.repeated == state.repeated);
        if step.failure is None {
            assert forall|i: int| 0 <= i < rest.len() implies !step.state.seen.contains(
                #[trigger] rest[i],
            ) by {
                assert(rest[i] == addresses[i + 1]);
            }
            lemma_distinct_addresses_are_not_reported(step.state, prefix, rest, env);
        }
    }
}

} // verus!
