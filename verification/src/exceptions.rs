//! The exception collection: a multimap from service identifiers to their
//! exception records, held in the outside `multimap` crate and reached only
//! through the trusted wrappers below.

use vstd::prelude::*;
use crate::calendar::ServiceException;

verus! {

#[verifier::external_type_specification]
#[verifier::external_body]
#[verifier::reject_recursive_types(K)]
#[verifier::reject_recursive_types(V)]
#[verifier::reject_recursive_types(S)]
pub struct ExMultiMap<K, V, S>(multimap::MultiMap<K, V, S>);

/// What the exception multimap holds: for each key present, the bucket of
/// values inserted under it, in insertion order.
pub uninterp spec fn exception_buckets(m: multimap::MultiMap<String, ServiceException>) -> Map<
    Seq<char>,
    Seq<ServiceException>,
>;

/// The bucket for `k`, or the empty sequence when the key is absent.
pub open spec fn bucket_or_empty(
    b: Map<Seq<char>, Seq<ServiceException>>,
    k: Seq<char>,
) -> Seq<ServiceException> {
    if b.dom().contains(k) {
        b[k]
    } else {
        Seq::empty()
    }
}

/// An exception collection with no keys at all.
pub open spec fn no_buckets(b: Map<Seq<char>, Seq<ServiceException>>) -> bool {
    b =~= Map::empty()
}

/// Relies on multimap::MultiMap::new: the created multimap has no keys.
#[verifier::external_body]
pub(crate) fn empty_exceptions() -> (m: multimap::MultiMap<String, ServiceException>)
    ensures
        no_buckets(exception_buckets(m)),
{
    multimap::MultiMap::new()
}

/// Relies on multimap::MultiMap::insert: appends the value to the key's
/// bucket, creating a one-element bucket when the key is new.
#[verifier::external_body]
pub(crate) fn insert_exception(
    m: &mut multimap::MultiMap<String, ServiceException>,
    k: String,
    v: ServiceException,
)
    ensures
        exception_buckets(*final(m)) == exception_buckets(*old(m)).insert(
            k@,
            bucket_or_empty(exception_buckets(*old(m)), k@).push(v),
        ),
{
    m.insert(k, v);
}

/// Relies on multimap::MultiMap::get_vec: returns the key's bucket, in
/// insertion order, or `None` when the key is absent.
#[verifier::external_body]
pub(crate) fn get_exceptions<'a>(
    m: &'a multimap::MultiMap<String, ServiceException>,
    k: &str,
) -> (r: Option<&'a Vec<ServiceException>>)
    ensures
        match r {
            Some(v) => exception_buckets(*m).dom().contains(k@) && v@ == exception_buckets(*m)[k@],
            None => !exception_buckets(*m).dom().contains(k@),
        },
{
    m.get_vec(k)
}

} // verus!
