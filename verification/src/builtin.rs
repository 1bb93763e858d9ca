//! Builtin cvars that every application has, and what is told to the user
//! when a cvar is modified.

use crate::tree::{ComponentId, TreeConflict};
use crate::world::{registrable, World};
use crate::reflect::{CVarMeta, CVarRecord, ReflectCVar};
use crate::resource::ResourceState;
use crate::types::CVarFlags;
use crate::value::{CVarType, CVarValue, ValueModel};
use vstd::prelude::*;

verus! {

/// The cvar `core.log_cvar_changes`: enables logging all cvar modifications.
pub struct LogCVarChanges;

impl CVarMeta for LogCVarChanges {
    open spec fn path_spec() -> Seq<char> {
        "core.log_cvar_changes"@
    }

    open spec fn flags_spec() -> CVarFlags {
        CVarFlags(CVarFlags::RUNTIME)
    }

    open spec fn default_spec() -> ValueModel {
        ValueModel::Bool(false)
    }

    fn cvar_path() -> (path: String) {
        "core.log_cvar_changes".to_owned()
    }

    fn flags() -> (flags: CVarFlags) {
        CVarFlags(CVarFlags::RUNTIME)
    }

    fn default_inner() -> (value: CVarValue) {
        CVarValue::Bool(false)
    }
}

/// The record of `core.log_cvar_changes`.
pub open spec fn log_cvar_changes_record() -> CVarRecord {
    CVarRecord {
        inner_type: CVarType::Bool,
        path: "core.log_cvar_changes"@,
        flags: CVarFlags(CVarFlags::RUNTIME),
        default_value: ValueModel::Bool(false),
        serialize: true,
        deserialize: true,
    }
}

/// Plugin that handles registering all the core cvars.
#[derive(Debug, Clone, Copy, Default)]
pub struct CoreCVarsPlugin;

impl CoreCVarsPlugin {
    /// Registers the core cvars in the world, and returns the handle of
    /// `core.log_cvar_changes`. Where the path is taken, the world stays as it
    /// is.
    pub fn build(&self, world: &mut World) -> (r: Result<ComponentId, TreeConflict>)
        requires
            old(world).wf(),
        ensures
            final(world).wf(),
            match r {
                Ok(id) => {
                    &&& registrable(old(world).registry(), log_cvar_changes_record()) is Ok
                    &&& id.0 == old(world).cells().len()
                    &&& final(world).cells() == old(world).cells().push(
                        Some(ResourceState::fresh(seq![ValueModel::Bool(false)])),
                    )
                    &&& final(world).registry() == old(world).registry().with_cvar(
                        id,
                        log_cvar_changes_record(),
                    )
                },
                Err(e) => {
                    &&& registrable(old(world).registry(), log_cvar_changes_record()) == Err::<
                        (),
                        TreeConflict,
                    >(e)
                    &&& final(world).cells() == old(world).cells()
                    &&& final(world).registry() == old(world).registry()
                },
            },
    {
        let record = ReflectCVar::new(
            "core.log_cvar_changes",
            CVarFlags(CVarFlags::RUNTIME),
            CVarValue::Bool(false),
        );
        world.try_register_cvar(record)
    }
}

/// Core plugin for providing cvars: it registers the builtin cvars.
///
/// It is to be built before any cvar of the application is registered.
#[derive(Debug, Clone, Copy, Default)]
pub struct CVarsPlugin;

impl CVarsPlugin {
    /// Registers the builtin cvars in the world.
    pub fn build(&self, world: &mut World) -> (r: Result<(), TreeConflict>)
        requires
            old(world).wf(),
        ensures
            final(world).wf(),
            match r {
                Ok(()) => {
                    &&& registrable(old(world).registry(), log_cvar_changes_record()) is Ok
                    &&& final(world).cells() == old(world).cells().push(
                        Some(ResourceState::fresh(seq![ValueModel::Bool(false)])),
                    )
                    &&& final(world).registry() == old(world).registry().with_cvar(
                        ComponentId(old(world).cells().len() as usize),
                        log_cvar_changes_record(),
                    )
                },
                Err(e) => {
                    &&& registrable(old(world).registry(), log_cvar_changes_record()) == Err::<
                        (),
                        TreeConflict,
                    >(e)
                    &&& final(world).cells() == old(world).cells()
                    &&& final(world).registry() == old(world).registry()
                },
            },
    {
        match CoreCVarsPlugin.build(world) {
            Ok(_) => Ok(()),
            Err(e) => Err(e),
        }
    }
}

/// What is told to the user about a modified cvar that does not take effect
/// at once.
#[derive(Debug, Clone, Copy, PartialEq, Eq, Structural)]
pub enum ModificationNotice {
    /// Nothing.
    Silent,
    /// A warning: the change will not apply until restart.
    RestartNeeded,
    /// An error: the change will have no effect.
    NoEffect,
}

/// What is to be logged for a cvar after a run of the application.
#[derive(Debug, Clone, Copy, PartialEq, Eq, Structural)]
pub struct ModificationReport {
    /// Whether the new value is to be logged.
    pub log_value: bool,
    /// What is told about a change that does not take effect at once.
    pub notice: ModificationNotice,
}

/// What is to be logged for a cvar with the given flags: its new value, if
/// it changed and changes are logged; and for a change, other than the cvar's
/// making, of a cvar that does not apply at runtime, a warning if the cvar is
/// saved and an error if it is not.
pub open spec fn modification_report(
    flags: CVarFlags,
    log_updates: bool,
    is_changed: bool,
    is_added: bool,
) -> ModificationReport {
    ModificationReport {
        log_value: log_updates && is_changed,
        notice: if is_changed && !flags.contains_spec(CVarFlags(CVarFlags::RUNTIME)) && !is_added {
            if flags.contains_spec(CVarFlags(CVarFlags::SAVED)) {
                ModificationNotice::RestartNeeded
            } else {
                ModificationNotice::NoEffect
            }
        } else {
            ModificationNotice::Silent
        },
    }
}

/// Tells what is to be logged for a cvar with the flags `flags` after a run:
/// `log_updates` is the value of `core.log_cvar_changes`, `is_changed` and
/// `is_added` say whether the cvar's resource was modified or made during the
/// run.
pub fn cvar_modified_system(flags: CVarFlags, log_updates: bool, is_changed: bool, is_added: bool) -> (report:
    ModificationReport)
    ensures
        report == modification_report(flags, log_updates, is_changed, is_added),
{
    let log_value = log_updates && is_changed;
    if !is_changed {
        return ModificationReport { log_value, notice: ModificationNotice::Silent };
    }
    if !flags.contains(CVarFlags(CVarFlags::RUNTIME)) && !is_added {
        if flags.contains(CVarFlags(CVarFlags::SAVED)) {
            ModificationReport { log_value, notice: ModificationNotice::RestartNeeded }
        } else {
            ModificationReport { log_value, notice: ModificationNotice::NoEffect }
        }
    } else {
        ModificationReport { log_value, notice: ModificationNotice::Silent }
    }
}

} // verus!
