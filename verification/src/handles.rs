//! Opaque handles for the host runtime.  The host owns core objects through
//! numeric handles; the registry hands an object out for a live handle and
//! releases it exactly once.

use vstd::prelude::*;

verus! {

/// A registry of host-owned objects: each slot either still holds its
/// object or has been released.
#[derive(Debug)]
pub struct HandleStore<T> {
    objects: Vec<Option<T>>,
}

/// A host-side object wrapping a handle into a registry.
#[derive(Clone, Copy, Debug, PartialEq, Eq, Structural)]
pub struct HostObject {
    handle: usize,
}

impl HostObject {
    /// The handle the host object carries.
    pub closed spec fn handle_view(self) -> int {
        self.handle as int
    }
}

impl<T> HandleStore<T> {
    /// The registry's slots: each created object, or `None` once released.
    pub closed spec fn slots(self) -> Seq<Option<T>> {
        self.objects@
    }

    /// An empty registry.
    pub fn new() -> (r: HandleStore<T>)
        ensures
            r.slots() == Seq::<Option<T>>::empty(),
    {
        HandleStore { objects: Vec::new() }
    }

    /// Moves `object` into the registry and returns the host object that
    /// owns it: a fresh handle pointing at the new slot.
    pub fn create_java_object(&mut self, object: T) -> (r: HostObject)
        ensures
            final(self).slots() == old(self).slots().push(Some(object)),
            r.handle_view() == old(self).slots().len(),
    {
        let handle = self.objects.len();
        self.objects.push(Some(object));
        HostObject { handle }
    }

    /// The handle a host object carries, as the host passes it back.
    pub fn get_raw_ptr(&self, obj: &HostObject) -> (r: usize)
        ensures
            r == obj.handle_view(),
    {
        obj.handle
    }

    /// The object a host object's handle points at: `None` for a handle
    /// that was never issued or whose object was already released.
    pub fn unwrap_ptr(&self, obj: &HostObject) -> (r: Option<&T>)
        ensures
            r is Some <==> 0 <= obj.handle_view() < self.slots().len() && self.slots()[obj.handle_view()] is Some,
            r is Some ==> *r.unwrap() == self.slots()[obj.handle_view()].unwrap(),
    {
        if obj.handle < self.objects.len() {
            self.objects[obj.handle].as_ref()
        } else {
            None
        }
    }

    /// Takes the object out of its slot for release, leaving the slot
    /// empty: a second release of the same handle returns nothing, so the
    /// host destroys each object exactly once.
    pub fn unwrap_mut_ptr(&mut self, obj: &HostObject) -> (r: Option<T>)
        ensures
            r is Some <==> 0 <= obj.handle_view() < old(self).slots().len() && old(self).slots()[obj.handle_view()] is Some,
            r is Some ==> r.unwrap() == old(self).slots()[obj.handle_view()].unwrap(),
            final(self).slots().len() == old(self).slots().len(),
            forall|i: int|
                0 <= i < old(self).slots().len() && i != obj.handle_view()
                    ==> final(self).slots()[i] == #[trigger] old(self).slots()[i],
            0 <= obj.handle_view() < old(self).slots().len() ==> final(self).slots()[obj.handle_view()] is None,
    {
        if obj.handle < self.objects.len() {
            let r = self.objects.remove(obj.handle);
            self.objects.insert(obj.handle, None);
            proof {
                assert(self.objects@ =~= old(self).objects@.update(obj.handle_view(), None));
            }
            r
        } else {
            None
        }
    }
}

} // verus!
