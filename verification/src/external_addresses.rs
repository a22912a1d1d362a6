//! The cache of this node's confirmed external addresses, held in a
//! `LinkedHashSet` of the `linked_hash_set` crate.
use vstd::prelude::*;
use linked_hash_set::LinkedHashSet;
use crate::address::{Multiaddr, ProtocolView};

verus! {

#[verifier::external_type_specification]
#[verifier::external_body]
#[verifier::reject_recursive_types(T)]
#[verifier::reject_recursive_types(S)]
pub struct ExLinkedHashSet<T, S>(LinkedHashSet<T, S>);

/// The addresses that a set holds, in the order of the set: least recently
/// inserted first.
pub uninterp spec fn address_set_items(set: LinkedHashSet<Multiaddr>) -> Seq<Seq<ProtocolView>>;

/// The test that an address differs from `addr`.
pub open spec fn differs_from(addr: Seq<ProtocolView>) -> spec_fn(Seq<ProtocolView>) -> bool {
    |a: Seq<ProtocolView>| a != addr
}

/// `LinkedHashSet::new`: the set it creates holds nothing.
#[verifier::external_body]
pub(crate) fn new_address_set() -> (set: LinkedHashSet<Multiaddr>)
    ensures
        address_set_items(set) == Seq::<Seq<ProtocolView>>::empty(),
{
    LinkedHashSet::new()
}

/// `LinkedHashSet::insert`: the inserted address ends up last in the order,
/// whether or not the set held it before (the crate's source moves a present
/// entry to the back), no other item moves, and the result tells whether the
/// address was new. Items are compared with the derived `Eq` of `Multiaddr`,
/// which compares component by component, as the views do.
#[verifier::external_body]
pub(crate) fn address_set_insert(set: &mut LinkedHashSet<Multiaddr>, addr: Multiaddr) -> (added: bool)
    ensures
        added == !address_set_items(*old(set)).contains(addr@),
        address_set_items(*final(set)) == address_set_items(*old(set)).filter(differs_from(addr@)).push(addr@),
{
    set.insert(addr)
}

/// `LinkedHashSet::iter`, each item copied with the verified `Clone` of
/// `Multiaddr`: the items, in the order of the set.
#[verifier::external_body]
pub(crate) fn address_set_to_vec(set: &LinkedHashSet<Multiaddr>) -> (items: Vec<Multiaddr>)
    ensures
        items@.map_values(|a: Multiaddr| a@) == address_set_items(*set),
{
    set.iter().cloned().collect()
}

/// `LinkedHashSet::len`: the number of items.
#[verifier::external_body]
pub(crate) fn address_set_len(set: &LinkedHashSet<Multiaddr>) -> (n: usize)
    ensures
        n == address_set_items(*set).len(),
{
    set.len()
}

/// `LinkedHashSet::pop_front`: removes and hands back the least recently
/// inserted item, where there is one.
#[verifier::external_body]
pub(crate) fn address_set_pop_front(set: &mut LinkedHashSet<Multiaddr>) -> (front: Option<Multiaddr>)
    ensures
        match front {
            Some(a) => {
                &&& address_set_items(*old(set)).len() > 0
                &&& a@ == address_set_items(*old(set))[0]
                &&& address_set_items(*final(set)) == address_set_items(*old(set)).drop_first()
            },
            None => {
                &&& address_set_items(*old(set)).len() == 0
                &&& address_set_items(*final(set)) == address_set_items(*old(set))
            },
        },
{
    set.pop_front()
}

} // verus!
