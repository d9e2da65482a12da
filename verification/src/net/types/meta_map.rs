//! The map that holds an entity's metadata.

use crate::net::types::metadata::MetadataField;
use vstd::prelude::*;

verus! {

/// `intmap::IntMap`: a hash map with integer keys.
#[verifier::external_type_specification]
#[verifier::external_body]
#[verifier::reject_recursive_types(V)]
pub struct ExIntMap<V>(intmap::IntMap<V>);

/// The fields that a map holds, by their indices.
pub uninterp spec fn meta_fields(m: intmap::IntMap<MetadataField>) -> Map<u64, MetadataField>;

/// The indices that a map holds, in the order in which it hands its fields out. The hash
/// is fixed, so the order follows from the map alone; which order it is depends on how the
/// map was filled.
pub uninterp spec fn meta_order(m: intmap::IntMap<MetadataField>) -> Seq<u64>;

/// Whether `order` names every index of `fields` once and no other.
pub open spec fn lists(order: Seq<u64>, fields: Map<u64, MetadataField>) -> bool {
    &&& order.no_duplicates()
    &&& forall|k: u64| #[trigger] order.contains(k) <==> fields.dom().contains(k)
}

/// The fields of a map in the order in which it hands them out.
pub open spec fn meta_entries(m: intmap::IntMap<MetadataField>) -> Seq<(u64, MetadataField)> {
    meta_order(m).map_values(|k: u64| (k, meta_fields(m)[k]))
}

/// `intmap::IntMap::new`: a map with nothing in it.
#[verifier::external_body]
pub(crate) fn new_map() -> (m: intmap::IntMap<MetadataField>)
    ensures
        meta_fields(m) == (Map::<u64, MetadataField>::empty()),
{
    intmap::IntMap::new()
}

/// `intmap::IntMap::insert`: puts `field` at `index`, in place of what was there, which is
/// handed back.
#[verifier::external_body]
pub(crate) fn insert_field(
    m: &mut intmap::IntMap<MetadataField>,
    index: u64,
    field: MetadataField,
) -> (replaced: Option<MetadataField>)
    ensures
        meta_fields(*final(m)) == meta_fields(*old(m)).insert(index, field),
        replaced == (if meta_fields(*old(m)).dom().contains(index) {
            Some(meta_fields(*old(m))[index])
        } else {
            None
        }),
{
    m.insert(index, field)
}

/// `Clone` of `intmap::IntMap`: a clone of every field at its index, handed out in the
/// same order.
#[verifier::external_body]
pub(crate) fn clone_map(m: &intmap::IntMap<MetadataField>) -> (copy: intmap::IntMap<MetadataField>)
    ensures
        meta_order(copy) == meta_order(*m),
        meta_fields(copy).dom() == meta_fields(*m).dom(),
        forall|k: u64| #[trigger]
            meta_fields(*m).dom().contains(k) ==> cloned::<MetadataField>(
                meta_fields(*m)[k],
                meta_fields(copy)[k],
            ),
{
    m.clone()
}

/// `intmap::IntMap::iter`: every field once, with its index.
#[verifier::external_body]
pub(crate) fn list_fields(m: &intmap::IntMap<MetadataField>) -> (entries: Vec<
    (u64, &MetadataField),
>)
    ensures
        entries@.len() == meta_order(*m).len(),
        forall|i: int|
            #![trigger entries@[i]]
            0 <= i < entries@.len() ==> entries@[i].0 == meta_order(*m)[i] && *entries@[i].1
                == meta_fields(*m)[meta_order(*m)[i]],
        forall|i: int, j: int|
            #![trigger entries@[i], entries@[j]]
            0 <= i < j < entries@.len() ==> entries@[i].0 != entries@[j].0,
        forall|k: u64| #[trigger]
            meta_fields(*m).dom().contains(k) <==> exists|i: int|
                0 <= i < entries@.len() && (#[trigger] entries@[i]).0 == k,
{
    m.iter().map(|(index, field)| (*index, field)).collect()
}

} // verus!
