//! Insertion-ordered set of hashes, kept by `hashlink`.
//!
//! The contracts of the three functions that call into `hashlink` are not
//! proved: each restates what the source of `hashlink::LinkedHashSet`
//! shows.

use vstd::prelude::*;
use hashlink::DefaultHashBuilder;
use hashlink::LinkedHashSet;
use crate::types::Hash256;

verus! {

#[verifier::external_type_specification]
#[verifier::external_body]
pub struct ExDefaultHashBuilder(DefaultHashBuilder);

#[verifier::external_type_specification]
#[verifier::external_body]
#[verifier::reject_recursive_types(T)]
#[verifier::reject_recursive_types(S)]
pub struct ExLinkedHashSet<T, S>(LinkedHashSet<T, S>);

/// The members of a set, oldest first.
pub uninterp spec fn linked_items(s: LinkedHashSet<(u128, u128), DefaultHashBuilder>) -> Seq<(u128, u128)>;

/// The members of a set as hashes, oldest first.
pub open spec fn linked_ids(s: LinkedHashSet<(u128, u128), DefaultHashBuilder>) -> Seq<Hash256> {
    Seq::new(linked_items(s).len(), |i: int| Hash256 { hi: linked_items(s)[i].0, lo: linked_items(s)[i].1 })
}

/// `LinkedHashSet::new`: a set without members.
#[verifier::external_body]
pub(crate) fn linked_set_new() -> (s: LinkedHashSet<(u128, u128), DefaultHashBuilder>)
    ensures
        linked_items(s).len() == 0,
{
    LinkedHashSet::new()
}

/// `LinkedHashSet::replace`: a value that is a member already keeps its
/// place in the order and is handed back; a new one becomes the last member.
#[verifier::external_body]
pub(crate) fn linked_set_replace(s: &mut LinkedHashSet<(u128, u128), DefaultHashBuilder>, value: Hash256) -> (r:
    Option<(u128, u128)>)
    ensures
        linked_items(*old(s)).contains(value.pair()) ==> linked_items(*final(s)) == linked_items(*old(s)) && r
            == Some(value.pair()),
        !linked_items(*old(s)).contains(value.pair()) ==> linked_items(*final(s)) == linked_items(*old(s)).push(
            value.pair(),
        ) && r is None,
{
    s.replace((value.hi, value.lo))
}

/// `LinkedHashSet::into_iter` followed by `rev`: the members, newest first.
#[verifier::external_body]
pub(crate) fn linked_set_into_rev(s: LinkedHashSet<(u128, u128), DefaultHashBuilder>) -> (r: Vec<Hash256>)
    ensures
        r@.len() == linked_items(s).len(),
        forall|i: int| 0 <= i < r@.len() ==> (#[trigger] r@[i]).pair() == linked_items(s)[r@.len() - 1 - i],
{
    s.into_iter().rev().map(Hash256::from_pair).collect()
}

/// A hash is among the members exactly if its pair of halves is.
pub proof fn lemma_linked_ids_contains(s: LinkedHashSet<(u128, u128), DefaultHashBuilder>, id: Hash256)
    ensures
        linked_ids(s).contains(id) <==> linked_items(s).contains(id.pair()),
{
    let items = linked_items(s);
    let ids = linked_ids(s);
    if items.contains(id.pair()) {
        let i = items.index_of(id.pair());
        assert(ids[i] == id);
    }
    if ids.contains(id) {
        let i = ids.index_of(id);
        assert(items[i] == id.pair());
    }
}

} // verus!
