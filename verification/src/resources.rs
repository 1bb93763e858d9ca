//! The table of resources: one cell per handle.
//!
//! A cell can be lent out: while it is, nothing else can reach it, and every
//! access through its handle is refused as a conflict.

use crate::resource::{Resource, ResourceState};
use crate::tree::ComponentId;
use vstd::prelude::*;

verus! {

/// Why a resource could not be fetched.
#[derive(Debug, Clone, Copy, PartialEq, Eq, Structural)]
pub enum ResourceFetchError {
    /// The handle was never given out.
    NotRegistered,
    /// The table has no resource for the handle.
    DoesNotExist(ComponentId),
    /// The resource is lent out.
    NoResourceAccess(ComponentId),
}

#[derive(Debug)]
enum Slot {
    Present(Resource),
    Lent,
}

impl Slot {
    spec fn state(self) -> Option<ResourceState> {
        match self {
            Slot::Present(resource) => Some(resource@),
            Slot::Lent => None,
        }
    }
}

/// The resources of a world, by handle.
#[derive(Debug)]
pub struct Resources {
    slots: Vec<Slot>,
}

/// What fetching the resource of `id` from the table `w` gives.
pub open spec fn fetch(w: Seq<Option<ResourceState>>, id: ComponentId) -> Result<
    ResourceState,
    ResourceFetchError,
> {
    if id.0 >= w.len() {
        Err(ResourceFetchError::DoesNotExist(id))
    } else {
        match w[id.0 as int] {
            Some(state) => Ok(state),
            None => Err(ResourceFetchError::NoResourceAccess(id)),
        }
    }
}

impl View for Resources {
    type V = Seq<Option<ResourceState>>;

    /// The state of each resource, by handle; `None` while it is lent out.
    closed spec fn view(&self) -> Seq<Option<ResourceState>> {
        Seq::new(self.slots.len() as nat, |i: int| self.slots[i].state())
    }
}

impl Resources {
    /// A table without a resource.
    pub fn new() -> (table: Resources)
        ensures
            table@.len() == 0,
    {
        Resources { slots: Vec::new() }
    }

    /// The number of handles given out.
    pub fn len(&self) -> (n: usize)
        ensures
            n == self@.len(),
    {
        self.slots.len()
    }

    /// Adds a resource and returns its handle.
    pub fn insert(&mut self, resource: Resource) -> (id: ComponentId)
        ensures
            id.0 == old(self)@.len(),
            final(self)@ == old(self)@.push(Some(resource@)),
    {
        let id = ComponentId(self.slots.len());
        self.slots.push(Slot::Present(resource));
        proof {
            assert(self@ =~= old(self)@.push(Some(resource@)));
        }
        id
    }

    /// The resource of `id`.
    pub fn get(&self, id: ComponentId) -> (r: Result<&Resource, ResourceFetchError>)
        ensures
            match r {
                Ok(resource) => fetch(self@, id) == Ok::<ResourceState, ResourceFetchError>(
                    resource@,
                ),
                Err(e) => fetch(self@, id) == Err::<ResourceState, ResourceFetchError>(e),
            },
    {
        if id.0 >= self.slots.len() {
            return Err(ResourceFetchError::DoesNotExist(id));
        }
        match &self.slots[id.0] {
            Slot::Present(resource) => Ok(resource),
            Slot::Lent => Err(ResourceFetchError::NoResourceAccess(id)),
        }
    }

    /// The resource of `id`, to be modified in place.
    pub fn get_mut(&mut self, id: ComponentId) -> (r: Result<&mut Resource, ResourceFetchError>)
        ensures
            match r {
                Ok(resource) => fetch(old(self)@, id) == Ok::<ResourceState, ResourceFetchError>(
                    resource@,
                ) && final(self)@ == old(self)@.update(id.0 as int, Some(final(resource)@)),
                Err(e) => fetch(old(self)@, id) == Err::<ResourceState, ResourceFetchError>(e)
                    && final(self)@ == old(self)@,
            },
    {
        if id.0 >= self.slots.len() {
            return Err(ResourceFetchError::DoesNotExist(id));
        }
        let ghost before = self.slots@;
        match &mut self.slots[id.0] {
            Slot::Present(resource) => {
                proof {
                    let after = before.update(id.0 as int, Slot::Present(*final(resource)));
                    assert(Seq::new(after.len(), |i: int| after[i].state()) =~= Seq::new(
                        before.len(),
                        |i: int| before[i].state(),
                    ).update(id.0 as int, Some(final(resource)@)));
                }
                Ok(resource)
            },
            Slot::Lent => Err(ResourceFetchError::NoResourceAccess(id)),
        }
    }

    /// Lends the resource of `id` out: it leaves the table until it is given
    /// back with [`Resources::restore`].
    pub fn lend(&mut self, id: ComponentId) -> (r: Result<Resource, ResourceFetchError>)
        ensures
            match r {
                Ok(resource) => fetch(old(self)@, id) == Ok::<ResourceState, ResourceFetchError>(
                    resource@,
                ) && final(self)@ == old(self)@.update(id.0 as int, None),
                Err(e) => fetch(old(self)@, id) == Err::<ResourceState, ResourceFetchError>(e)
                    && final(self)@ == old(self)@,
            },
    {
        if id.0 >= self.slots.len() {
            return Err(ResourceFetchError::DoesNotExist(id));
        }
        let mut slot = Slot::Lent;
        core::mem::swap(&mut self.slots[id.0], &mut slot);
        match slot {
            Slot::Present(resource) => {
                proof {
                    assert(self@ =~= old(self)@.update(id.0 as int, None));
                }
                Ok(resource)
            },
            Slot::Lent => {
                proof {
                    assert(self@ =~= old(self)@);
                }
                Err(ResourceFetchError::NoResourceAccess(id))
            },
        }
    }

    /// Gives a resource that was lent out back under its handle. Where the
    /// handle has no resource lent out, the table stays as it is and the
    /// resource is handed back.
    pub fn restore(&mut self, id: ComponentId, resource: Resource) -> (r: Result<(), Resource>)
        ensures
            match r {
                Ok(()) => {
                    &&& id.0 < old(self)@.len()
                    &&& old(self)@[id.0 as int] is None
                    &&& final(self)@ == old(self)@.update(id.0 as int, Some(resource@))
                },
                Err(back) => !(id.0 < old(self)@.len() && old(self)@[id.0 as int] is None)
                    && final(self)@ == old(self)@ && back@ == resource@,
            },
    {
        if id.0 >= self.slots.len() {
            return Err(resource);
        }
        let lent = match &self.slots[id.0] {
            Slot::Present(_) => false,
            Slot::Lent => true,
        };
        if lent {
            self.slots.set(id.0, Slot::Present(resource));
            proof {
                assert(self@ =~= old(self)@.update(id.0 as int, Some(resource@)));
            }
            Ok(())
        } else {
            Err(resource)
        }
    }
}

} // verus!
