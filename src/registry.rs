//! The two slot maps of the router: attached devices and client sessions.
//! Both are `slab::Slab`s; their contents are named below and every call into
//! the slab goes through one of the wrappers here.
use crate::event::DeviceInfo;
use slab::Slab;
use vstd::prelude::*;

verus! {

#[verifier::external_type_specification]
#[verifier::external_body]
#[verifier::reject_recursive_types(T)]
pub struct ExSlab<T>(Slab<T>);

/// The occupied slots of the device slab, by key.
pub uninterp spec fn device_slots(s: Slab<DeviceInfo>) -> Map<usize, DeviceInfo>;

/// The occupied keys of the client slab.
pub uninterp spec fn client_slots(s: Slab<()>) -> Set<usize>;

/// Relies on `Slab::new`: a new slab holds nothing.
#[verifier::external_body]
pub(crate) fn device_slab_new() -> (r: Slab<DeviceInfo>)
    ensures
        device_slots(r).dom().finite(),
        device_slots(r).dom().len() == 0,
{
    Slab::new()
}

/// Relies on `Slab::insert`: the value goes into a slot that was free, whose key
/// is returned.
#[verifier::external_body]
pub(crate) fn device_slab_insert(s: &mut Slab<DeviceInfo>, v: DeviceInfo) -> (r: usize)
    ensures
        !device_slots(*old(s)).contains_key(r),
        device_slots(*final(s)) == device_slots(*old(s)).insert(r, v),
{
    s.insert(v)
}

/// Relies on `Slab::remove`: the value at an occupied key is taken out and
/// returned; it panics on a free key, which `requires` leaves out.
#[verifier::external_body]
pub(crate) fn device_slab_remove(s: &mut Slab<DeviceInfo>, k: usize) -> (r: DeviceInfo)
    requires
        device_slots(*old(s)).contains_key(k),
    ensures
        r == device_slots(*old(s))[k],
        device_slots(*final(s)) == device_slots(*old(s)).remove(k),
{
    s.remove(k)
}

/// Relies on `Slab::contains`: whether a key is occupied.
#[verifier::external_body]
pub(crate) fn device_slab_contains(s: &Slab<DeviceInfo>, k: usize) -> (r: bool)
    ensures
        r == device_slots(*s).contains_key(k),
{
    s.contains(k)
}

/// Relies on `Slab::get`: the value at an occupied key, `None` at a free one.
#[verifier::external_body]
pub(crate) fn device_slab_get(s: &Slab<DeviceInfo>, k: usize) -> (r: Option<&DeviceInfo>)
    ensures
        device_slots(*s).contains_key(k) ==> r == Some(&device_slots(*s)[k]),
        !device_slots(*s).contains_key(k) ==> r.is_none(),
{
    s.get(k)
}

/// Relies on `Slab::iter`, which walks the occupied slots in increasing key
/// order: their keys.
#[verifier::external_body]
pub(crate) fn device_slab_keys(s: &Slab<DeviceInfo>) -> (r: Vec<usize>)
    ensures
        forall|i: int, j: int| 0 <= i < j < r@.len() ==> r@[i] < r@[j],
        forall|k: usize| device_slots(*s).contains_key(k) <==> r@.contains(k),
{
    s.iter().map(|(k, _)| k).collect()
}

/// Relies on `Slab::new`: a new slab holds nothing.
#[verifier::external_body]
pub(crate) fn client_slab_new() -> (r: Slab<()>)
    ensures
        client_slots(r).finite(),
        client_slots(r).len() == 0,
{
    Slab::new()
}

/// Relies on `Slab::insert`: a free slot is taken, and its key returned.
#[verifier::external_body]
pub(crate) fn client_slab_insert(s: &mut Slab<()>) -> (r: usize)
    ensures
        !client_slots(*old(s)).contains(r),
        client_slots(*final(s)) == client_slots(*old(s)).insert(r),
{
    s.insert(())
}

/// Relies on `Slab::remove`: an occupied slot is freed; it panics on a free
/// key, which `requires` leaves out.
#[verifier::external_body]
pub(crate) fn client_slab_remove(s: &mut Slab<()>, k: usize)
    requires
        client_slots(*old(s)).contains(k),
    ensures
        client_slots(*final(s)) == client_slots(*old(s)).remove(k),
{
    s.remove(k);
}

/// Relies on `Slab::contains`: whether a key is occupied.
#[verifier::external_body]
pub(crate) fn client_slab_contains(s: &Slab<()>, k: usize) -> (r: bool)
    ensures
        r == client_slots(*s).contains(k),
{
    s.contains(k)
}

/// Relies on `Slab::len`: the number of occupied slots.
#[verifier::external_body]
pub(crate) fn client_slab_len(s: &Slab<()>) -> (r: usize)
    ensures
        r == client_slots(*s).len(),
{
    s.len()
}

/// Relies on `Slab::iter`, which walks the occupied slots in increasing key
/// order: their keys.
#[verifier::external_body]
pub(crate) fn client_slab_keys(s: &Slab<()>) -> (r: Vec<usize>)
    ensures
        forall|i: int, j: int| 0 <= i < j < r@.len() ==> r@[i] < r@[j],
        forall|k: usize| client_slots(*s).contains(k) <==> r@.contains(k),
{
    s.iter().map(|(k, _)| k).collect()
}

} // verus!
