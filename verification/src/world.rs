//! The world: the resources together with the registry of cvars, and the
//! operations that set a cvar through its path.

use crate::error::CVarError;
use crate::management::{
    failure_detail, lemma_registered_fits, lemma_registered_resolves, CVarManagement, Registry,
    WriteMode,
};
use crate::parse::CVarOverride;
use crate::path::split_segments;
use crate::reflect::{CVarRecord, ReflectCVar};
use crate::resource::{Resource, ResourceState};
use crate::tree::{conflict_at, inserted_root, ComponentId, TreeConflict};
use crate::types::CVarFlags;
use crate::resources::{fetch, ResourceFetchError, Resources};
use crate::value::CVarValue;
use toml_edit::Value;
use vstd::prelude::*;

verus! {

/// Whether the cvar of `record` can be registered in `registry`, and if not,
/// what stands in its way.
pub open spec fn registrable(registry: Registry, record: CVarRecord) -> Result<(), TreeConflict> {
    match conflict_at(registry.tree, split_segments(record.path)) {
        Some(conflict) => Err(conflict),
        None => Ok(()),
    }
}

/// A cvar that was registered is found under its path with its handle, and
/// no cvar can be registered under that path again, whatever its record: the
/// second registration is refused, and leaves the world as it is.
pub proof fn lemma_registered_once(
    registry: Registry,
    id: ComponentId,
    record: CVarRecord,
    again: CVarRecord,
)
    requires
        again.path == record.path,
    ensures
        registry.with_cvar(id, record).resolve(record.path) == Some(id),
        registrable(registry.with_cvar(id, record), again) is Err,
{
    lemma_registered_resolves(registry, id, record);
}

/// A path that leads to a cvar cannot be registered again, whatever was
/// registered since and whatever the cvar holds by now: the registration is
/// refused, and a refused registration leaves the world as it is.
pub proof fn lemma_resolved_is_refused(registry: Registry, again: CVarRecord)
    requires
        registry.resolve(again.path) is Some,
    ensures
        registrable(registry, again) is Err,
{
}

/// The resources of an application and the registry of its cvars.
pub struct World {
    pub(crate) resources: Resources,
    pub(crate) management: CVarManagement,
}

impl World {
    /// The registry of the world.
    pub closed spec fn registry(&self) -> Registry {
        self.management@
    }

    /// The resources of the world, by handle.
    pub closed spec fn cells(&self) -> Seq<Option<ResourceState>> {
        self.resources@
    }

    /// The world's registry is well formed.
    pub closed spec fn management_wf(&self) -> bool {
        self.management.wf()
    }

    /// The world is well formed: its registry is, the handles of the
    /// registry are handles of its resources, and no two cvars have the same
    /// handle.
    pub open spec fn wf(&self) -> bool {
        &&& self.management_wf()
        &&& self.registry().fits(self.cells().len())
        &&& self.registry().distinct_handles()
    }

    /// The registry of a well-formed world is valid.
    pub proof fn lemma_wf_valid(&self)
        requires
            self.wf(),
        ensures
            self.registry().valid(),
            self.registry().separate(),
    {
        self.management.lemma_wf_valid();
    }

    /// A world without a resource and without a cvar.
    pub fn new() -> (world: World)
        ensures
            world.wf(),
            world.registry().tree == inserted_root(),
            world.registry().records.len() == 0,
            world.cells().len() == 0,
    {
        World { resources: Resources::new(), management: CVarManagement::new() }
    }

    /// The registry of cvars.
    pub fn management(&self) -> (management: &CVarManagement)
        ensures
            management@ == self.registry(),
            management.wf() == self.management_wf(),
    {
        &self.management
    }

    /// The resources.
    pub fn resources(&self) -> (resources: &Resources)
        ensures
            resources@ == self.cells(),
    {
        &self.resources
    }

    /// The resources, to be modified in place. The registry stays as it is.
    pub fn resources_mut(&mut self) -> (resources: &mut Resources)
        ensures
            resources@ == old(self).cells(),
            final(self).cells() == final(resources)@,
            final(self).registry() == old(self).registry(),
            final(self).management_wf() == old(self).management_wf(),
    {
        &mut self.resources
    }

    /// Tells what stands in the way of registering a cvar at `path`, if
    /// anything.
    pub fn conflict(&self, path: &str) -> (r: Option<TreeConflict>)
        requires
            self.wf(),
        ensures
            r == conflict_at(self.registry().tree, split_segments(path@)),
    {
        self.management.conflict(path)
    }

    /// Registers a cvar and makes its resource, which holds the default
    /// value. See [`CVarManagement::register_cvar`].
    pub fn register_cvar(&mut self, meta: ReflectCVar) -> (id: ComponentId)
        requires
            old(self).wf(),
            conflict_at(old(self).registry().tree, split_segments(meta@.path)) is None,
        ensures
            final(self).wf(),
            id.0 == old(self).cells().len(),
            final(self).cells() == old(self).cells().push(
                Some(ResourceState::fresh(seq![meta@.default_value])),
            ),
            final(self).registry() == old(self).registry().with_cvar(id, meta@),
    {
        let count = self.resources.len();
        proof {
            lemma_registered_fits(self.registry(), count as nat, meta@);
        }
        self.management.register_cvar(&mut self.resources, meta)
    }

    /// Registers a cvar and makes its resource, if the cvar can be
    /// registered; otherwise the world stays as it is.
    pub fn try_register_cvar(&mut self, meta: ReflectCVar) -> (r: Result<
        ComponentId,
        TreeConflict,
    >)
        requires
            old(self).wf(),
        ensures
            final(self).wf(),
            match r {
                Ok(id) => {
                    &&& registrable(old(self).registry(), meta@) is Ok
                    &&& id.0 == old(self).cells().len()
                    &&& final(self).cells() == old(self).cells().push(
                        Some(ResourceState::fresh(seq![meta@.default_value])),
                    )
                    &&& final(self).registry() == old(self).registry().with_cvar(id, meta@)
                },
                Err(e) => {
                    &&& registrable(old(self).registry(), meta@) == Err::<(), TreeConflict>(e)
                    &&& final(self).cells() == old(self).cells()
                    &&& final(self).registry() == old(self).registry()
                },
            },
    {
        match self.management.conflict(meta.cvar_path()) {
            Some(conflict) => {
                return Err(conflict);
            },
            None => {},
        }
        Ok(self.register_cvar(meta))
    }

    /// The resource of `id`.
    pub fn resource(&self, id: ComponentId) -> (r: Result<&Resource, ResourceFetchError>)
        ensures
            match r {
                Ok(resource) => fetch(self.cells(), id) == Ok::<ResourceState, ResourceFetchError>(
                    resource@,
                ),
                Err(e) => fetch(self.cells(), id) == Err::<ResourceState, ResourceFetchError>(e),
            },
    {
        self.resources.get(id)
    }

    /// The resource of `id`, to be modified in place.
    pub fn resource_mut(&mut self, id: ComponentId) -> (r: Result<
        &mut Resource,
        ResourceFetchError,
    >)
        ensures
            final(self).registry() == old(self).registry(),
            final(self).management_wf() == old(self).management_wf(),
            final(self).cells().len() == old(self).cells().len(),
            match r {
                Ok(resource) => fetch(old(self).cells(), id) == Ok::<
                    ResourceState,
                    ResourceFetchError,
                >(resource@) && final(self).cells() == old(self).cells().update(
                    id.0 as int,
                    Some(final(resource)@),
                ),
                Err(e) => fetch(old(self).cells(), id) == Err::<ResourceState, ResourceFetchError>(
                    e,
                ) && final(self).cells() == old(self).cells(),
            },
    {
        self.resources.get_mut(id)
    }
}

/// Setting cvars of a world through their paths.
pub trait WorldExtensions {
    /// The registry of the world.
    spec fn world_registry(&self) -> Registry;

    /// The resources of the world.
    spec fn world_cells(&self) -> Seq<Option<ResourceState>>;

    /// The world's registry is well formed.
    spec fn world_wf(&self) -> bool;

    /// Sets a cvar of the world to the value that the document value `value`
    /// stands for. The write is recorded as a modification.
    fn set_cvar_deserialize(&mut self, cvar: &str, value: &Value) -> (r: Result<(), CVarError>)
        requires
            old(self).world_wf(),
        ensures
            final(self).world_wf(),
            final(self).world_registry() == old(self).world_registry(),
            r == old(self).world_registry().write_raw(
                old(self).world_cells(),
                cvar@,
                *value,
                WriteMode::Normal,
                failure_detail(r),
            ).result,
            final(self).world_cells() == old(self).world_registry().write_raw(
                old(self).world_cells(),
                cvar@,
                *value,
                WriteMode::Normal,
                failure_detail(r),
            ).world,
    ;

    /// Sets a cvar of the world to the value that the document value `value`
    /// stands for; the value counts as the cvar's default afterwards.
    fn set_cvar_deserialize_no_change(&mut self, cvar: &str, value: &Value) -> (r: Result<
        (),
        CVarError,
    >)
        requires
            old(self).world_wf(),
        ensures
            final(self).world_wf(),
            final(self).world_registry() == old(self).world_registry(),
            r == old(self).world_registry().write_raw(
                old(self).world_cells(),
                cvar@,
                *value,
                WriteMode::Silent,
                failure_detail(r),
            ).result,
            final(self).world_cells() == old(self).world_registry().write_raw(
                old(self).world_cells(),
                cvar@,
                *value,
                WriteMode::Silent,
                failure_detail(r),
            ).world,
    ;

    /// Sets a cvar of the world to the given value. The write is recorded as
    /// a modification.
    fn set_cvar_reflect(&mut self, cvar: &str, value: &CVarValue) -> (r: Result<(), CVarError>)
        requires
            old(self).world_wf(),
        ensures
            final(self).world_wf(),
            final(self).world_registry() == old(self).world_registry(),
            r == old(self).world_registry().write(
                old(self).world_cells(),
                cvar@,
                value@,
                WriteMode::Normal,
            ).result,
            final(self).world_cells() == old(self).world_registry().write(
                old(self).world_cells(),
                cvar@,
                value@,
                WriteMode::Normal,
            ).world,
    ;

    /// Sets a cvar of the world to the given value, which counts as the
    /// cvar's default afterwards.
    fn set_cvar_reflect_no_change(&mut self, cvar: &str, value: &CVarValue) -> (r: Result<
        (),
        CVarError,
    >)
        requires
            old(self).world_wf(),
        ensures
            final(self).world_wf(),
            final(self).world_registry() == old(self).world_registry(),
            r == old(self).world_registry().write(
                old(self).world_cells(),
                cvar@,
                value@,
                WriteMode::Silent,
            ).result,
            final(self).world_cells() == old(self).world_registry().write(
                old(self).world_cells(),
                cvar@,
                value@,
                WriteMode::Silent,
            ).world,
    ;

    /// Sets a cvar of the world as the given override says. The value of an
    /// override counts as the cvar's default.
    fn set_cvar_with_override(&mut self, cvar_override: &CVarOverride) -> (r: Result<
        (),
        CVarError,
    >)
        requires
            old(self).world_wf(),
        ensures
            final(self).world_wf(),
            final(self).world_registry() == old(self).world_registry(),
            r == old(self).world_registry().write_raw(
                old(self).world_cells(),
                cvar_override.path_spec(),
                cvar_override.value_spec(),
                WriteMode::Silent,
                failure_detail(r),
            ).result,
            final(self).world_cells() == old(self).world_registry().write_raw(
                old(self).world_cells(),
                cvar_override.path_spec(),
                cvar_override.value_spec(),
                WriteMode::Silent,
                failure_detail(r),
            ).world,
    ;
}

impl WorldExtensions for World {
    open spec fn world_registry(&self) -> Registry {
        self.registry()
    }

    open spec fn world_cells(&self) -> Seq<Option<ResourceState>> {
        self.cells()
    }

    open spec fn world_wf(&self) -> bool {
        self.wf()
    }

    fn set_cvar_deserialize(&mut self, cvar: &str, value: &Value) -> (r: Result<(), CVarError>) {
        self.management.set_cvar_deserialize(&mut self.resources, cvar, value)
    }

    fn set_cvar_deserialize_no_change(&mut self, cvar: &str, value: &Value) -> (r: Result<
        (),
        CVarError,
    >) {
        self.management.set_cvar_deserialize_no_change(&mut self.resources, cvar, value)
    }

    fn set_cvar_reflect(&mut self, cvar: &str, value: &CVarValue) -> (r: Result<(), CVarError>) {
        self.management.set_cvar_reflect(&mut self.resources, cvar, value)
    }

    fn set_cvar_reflect_no_change(&mut self, cvar: &str, value: &CVarValue) -> (r: Result<
        (),
        CVarError,
    >) {
        self.management.set_cvar_reflect_no_change(&mut self.resources, cvar, value)
    }

    fn set_cvar_with_override(&mut self, cvar_override: &CVarOverride) -> (r: Result<
        (),
        CVarError,
    >) {
        self.management.set_cvar_deserialize_no_change(
            &mut self.resources,
            cvar_override.path(),
            cvar_override.value(),
        )
    }
}

} // verus!
