//! The shape of a configuration value: where its records and fields are.

use vstd::prelude::*;
use crate::address::{all_uppercased, joined, uppercased};

verus! {

/// What a node of a configuration value is.
#[derive(Clone, Copy, Debug, PartialEq, Eq)]
pub enum Kind {
    /// A boolean, a number, a character, a text or a run of bytes.
    Scalar,
    /// A value that may be absent, present or not.
    Optional,
    /// The unit value, a unit struct or a unit variant.
    Unit,
    /// A struct or a variant that wraps one value.
    Newtype,
    /// A sequence of any length.
    Sequence,
    /// A tuple, a tuple struct or a tuple variant.
    Tuple,
    /// A map from keys to values.
    Mapping,
    /// A struct with named fields.
    Struct,
    /// A variant with named fields.
    StructVariant,
}

/// Whether a node of this kind is checked as a whole. Only a struct with
/// named fields is not: it has no address of its own, and the walk enters
/// its fields instead. A variant with named fields is checked as a whole
/// like every other node, and its fields are not entered.
pub open spec fn checked_as_a_whole(kind: Kind) -> bool {
    !(kind is Struct)
}

/// Whether a node of this kind is checked as a whole.
pub fn is_checked_as_a_whole(kind: Kind) -> (whole: bool)
    ensures
        whole == checked_as_a_whole(kind),
{
    match kind {
        Kind::Struct => false,
        _ => true,
    }
}

/// The shape of a configuration value.
#[derive(Debug, PartialEq, Eq)]
pub enum Shape {
    /// Anything but a record: a scalar, an optional value, a sequence, a
    /// map, a tuple or the payload of an enum variant, taken as a whole.
    Leaf,
    /// A record: its named fields in the order of their declaration.
    Record(Vec<Field>),
}

/// A named field of a record.
#[derive(Debug, PartialEq, Eq)]
pub struct Field {
    pub name: String,
    pub shape: Shape,
}

impl Shape {
    /// The shape of a node of the kind `kind` with the named fields
    /// `fields`: a record with these fields where the walk enters the node,
    /// a leaf where the node is checked as a whole.
    pub open spec fn of(kind: Kind, fields: Vec<Field>) -> Shape {
        if checked_as_a_whole(kind) {
            Shape::Leaf
        } else {
            Shape::Record(fields)
        }
    }

    /// The shape of a node of the kind `kind` with the named fields `fields`.
    pub fn new(kind: Kind, fields: Vec<Field>) -> (shape: Shape)
        ensures
            shape == Shape::of(kind, fields),
    {
        if is_checked_as_a_whole(kind) {
            Shape::Leaf
        } else {
            Shape::Record(fields)
        }
    }
}

/// The addresses of the nodes of `shape` that can be overridden, in the
/// order of a walk from the root, where `segments` leads to the root.
///
/// A record has no address of its own: only its fields have one. Everything
/// else has exactly one address, whatever it holds.
pub open spec fn addresses(shape: Shape, segments: Seq<Seq<char>>) -> Seq<Seq<char>>
    decreases shape, 0nat,
{
    match shape {
        Shape::Leaf => seq![joined(segments)],
        Shape::Record(fields) => field_addresses(fields@, 0, segments),
    }
}

/// The addresses under the fields of a record from the field `from` on.
pub open spec fn field_addresses(fields: Seq<Field>, from: int, segments: Seq<Seq<char>>) -> Seq<
    Seq<char>,
>
    decreases fields, fields.len() - from,
{
    if from < 0 || from >= fields.len() {
        Seq::empty()
    } else {
        addresses(fields[from].shape, segments.push(uppercased(fields[from].name@)))
            + field_addresses(fields, from + 1, segments)
    }
}

/// Whether `steps` leads from the root of `shape` to a node that has an
/// address: each step is the index of a field of the record that the steps
/// have reached, and the last field is not a record.
pub open spec fn leads_to_leaf(shape: Shape, steps: Seq<int>) -> bool
    decreases steps.len(),
{
    match shape {
        Shape::Leaf => steps.len() == 0,
        Shape::Record(fields) => {
            &&& steps.len() > 0
            &&& 0 <= steps[0] < fields.len()
            &&& leads_to_leaf(fields[steps[0]].shape, steps.drop_first())
        },
    }
}

/// The names of the fields that `steps` goes through, from the root down.
pub open spec fn names_at(shape: Shape, steps: Seq<int>) -> Seq<Seq<char>>
    recommends
        leads_to_leaf(shape, steps),
    decreases steps.len(),
{
    if steps.len() == 0 {
        Seq::empty()
    } else {
        let field = shape->Record_0[steps[0]];
        seq![field.name@] + names_at(field.shape, steps.drop_first())
    }
}

/// The addresses under the fields from `from` on hold those under each of
/// these fields.
proof fn lemma_field_addresses_hold(
    fields: Seq<Field>,
    from: int,
    segments: Seq<Seq<char>>,
    at: int,
    address: Seq<char>,
)
    requires
        0 <= from <= at < fields.len(),
        addresses(fields[at].shape, segments.push(uppercased(fields[at].name@))).contains(
            address,
        ),
    ensures
        field_addresses(fields, from, segments).contains(address),
    decreases at - from,
{
    let first = addresses(fields[from].shape, segments.push(uppercased(fields[from].name@)));
    let rest = field_addresses(fields, from + 1, segments);
    if from == at {
        let i = choose|i: int| 0 <= i < first.len() && first[i] == address;
        assert((first + rest)[i] == address);
    } else {
        lemma_field_addresses_hold(fields, from + 1, segments, at, address);
        let i = choose|i: int| 0 <= i < rest.len() && rest[i] == address;
        assert((first + rest)[first.len() + i] == address);
    }
}

/// The walk checks every field that is not a record under the address that
/// its names spell: the segments of the root, then the upper-cased names of
/// the fields that lead to it, joined by `_`.
pub proof fn lemma_leaf_is_checked_under_its_names(
    shape: Shape,
    segments: Seq<Seq<char>>,
    steps: Seq<int>,
)
    requires
        leads_to_leaf(shape, steps),
    ensures
        addresses(shape, segments).contains(
            joined(segments + all_uppercased(names_at(shape, steps))),
        ),
    decreases steps.len(),
{
    let address = joined(segments + all_uppercased(names_at(shape, steps)));
    match shape {
        Shape::Leaf => {
            assert(segments + all_uppercased(names_at(shape, steps)) =~= segments);
            assert(addresses(shape, segments)[0] == address);
        },
        Shape::Record(fields) => {
            let field = fields[steps[0]];
            let inner = segments.push(uppercased(field.name@));
            lemma_leaf_is_checked_under_its_names(field.shape, inner, steps.drop_first());
            assert(inner + all_uppercased(names_at(field.shape, steps.drop_first())) =~= segments
                + all_uppercased(names_at(shape, steps)));
            lemma_field_addresses_hold(fields@, 0, segments, steps[0], address);
        },
    }
}

} // verus!
