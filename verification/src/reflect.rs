//! What is known of a cvar apart from its value: its type, path, flags and
//! default, and how its value is reached inside its resource.

use crate::defaults::IsDefault;
use crate::error::CVarError;
use crate::resource::{Resource, ResourceState};
use crate::types::CVarFlags;
use crate::value::{applied, CVarType, CVarValue, ValueModel};
use vstd::prelude::*;

verus! {

/// Static meta information about a cvar: its path, its flags and its default
/// value.
pub trait CVarMeta {
    /// The path of the cvar within the config.
    spec fn path_spec() -> Seq<char>;

    /// The flags applied to this cvar.
    spec fn flags_spec() -> CVarFlags;

    /// The cvar's default value.
    spec fn default_spec() -> ValueModel;

    /// The path of the cvar within the config.
    fn cvar_path() -> (path: String)
        ensures
            path@ == Self::path_spec(),
    ;

    /// The flags applied to this cvar.
    fn flags() -> (flags: CVarFlags)
        ensures
            flags == Self::flags_spec(),
    ;

    /// Returns an instance of the cvar's default value.
    fn default_inner() -> (value: CVarValue)
        ensures
            value@ == Self::default_spec(),
    ;
}

/// The record kept for a registered cvar.
#[derive(Debug, Clone)]
pub struct ReflectCVar {
    inner_type: CVarType,
    path: String,
    flags: CVarFlags,
    default_value: CVarValue,
    serialize: bool,
    deserialize: bool,
}

/// What the record of a cvar holds.
pub struct CVarRecord {
    /// The type of the cvar's value.
    pub inner_type: CVarType,
    /// The path of the cvar.
    pub path: Seq<char>,
    /// The flags of the cvar.
    pub flags: CVarFlags,
    /// The default value of the cvar.
    pub default_value: ValueModel,
    /// Whether the value can be written into a document.
    pub serialize: bool,
    /// Whether the value can be read from a document.
    pub deserialize: bool,
}

impl View for ReflectCVar {
    type V = CVarRecord;

    closed spec fn view(&self) -> CVarRecord {
        CVarRecord {
            inner_type: self.inner_type,
            path: self.path@,
            flags: self.flags,
            default_value: self.default_value@,
            serialize: self.serialize,
            deserialize: self.deserialize,
        }
    }
}

/// The value found inside a resource: its first field. A resource without a
/// field has not the layout of a cvar.
pub open spec fn inner_of(state: ResourceState) -> Result<ValueModel, CVarError> {
    if state.fields.len() > 0 {
        Ok(state.fields[0])
    } else {
        Err(CVarError::BadCVarType)
    }
}

/// The resource after `patch` was applied to its value, or why it cannot be
/// applied: the resource has not the layout of a cvar, or `patch` has another
/// type than the value.
pub open spec fn apply_to(state: ResourceState, patch: ValueModel) -> Result<
    ResourceState,
    CVarError,
> {
    if state.fields.len() == 0 {
        Err(CVarError::BadCVarType)
    } else {
        match applied(state.fields[0], patch) {
            Ok(()) => Ok(state.with_inner(patch)),
            Err(inner) => Err(CVarError::FailedApply { inner }),
        }
    }
}

impl ReflectCVar {
    /// The record of a cvar at `path` with the given flags and default
    /// value. The value's type is that of the default, and it can be read
    /// from and written into documents.
    pub fn new(path: &str, flags: CVarFlags, default_value: CVarValue) -> (record: ReflectCVar)
        ensures
            record@ == (CVarRecord {
                inner_type: default_value@.inner_type(),
                path: path@,
                flags,
                default_value: default_value@,
                serialize: true,
                deserialize: true,
            }),
    {
        ReflectCVar {
            inner_type: default_value.inner_type(),
            path: path.to_owned(),
            flags,
            default_value,
            serialize: true,
            deserialize: true,
        }
    }

    /// The same record, for a value type that can be written into documents
    /// only if `serialize`, and read from them only if `deserialize`.
    pub fn with_hooks(self, serialize: bool, deserialize: bool) -> (record: ReflectCVar)
        ensures
            record@ == (CVarRecord { serialize, deserialize, ..self@ }),
    {
        ReflectCVar {
            inner_type: self.inner_type,
            path: self.path,
            flags: self.flags,
            default_value: self.default_value,
            serialize,
            deserialize,
        }
    }

    /// The record of the cvar that `T` describes: its path, flags and
    /// default are those of `T`, the value's type is that of the default, and
    /// the value can be read from and written into documents.
    pub fn from_type<T: CVarMeta>() -> (record: ReflectCVar)
        ensures
            record@ == (CVarRecord {
                inner_type: T::default_spec().inner_type(),
                path: T::path_spec(),
                flags: T::flags_spec(),
                default_value: T::default_spec(),
                serialize: true,
                deserialize: true,
            }),
    {
        let path = T::cvar_path();
        ReflectCVar::new(path.as_str(), T::flags(), T::default_inner())
    }

    /// A copy of the record.
    pub fn duplicate(&self) -> (copy: ReflectCVar)
        ensures
            copy@ == self@,
    {
        ReflectCVar {
            inner_type: self.inner_type,
            path: self.path.clone(),
            flags: self.flags,
            default_value: self.default_value.duplicate(),
            serialize: self.serialize,
            deserialize: self.deserialize,
        }
    }

    /// Returns the inner type (i.e. value type) of the cvar.
    pub fn inner_type(&self) -> (ty: CVarType)
        ensures
            ty == self@.inner_type,
    {
        self.inner_type
    }

    /// Returns the path of the cvar.
    pub fn cvar_path(&self) -> (path: &str)
        ensures
            path@ == self@.path,
    {
        self.path.as_str()
    }

    /// Returns the cvar's flags.
    pub fn flags(&self) -> (flags: CVarFlags)
        ensures
            flags == self@.flags,
    {
        self.flags
    }

    /// Whether the cvar's value can be written into a document.
    pub fn can_serialize(&self) -> (r: bool)
        ensures
            r == self@.serialize,
    {
        self.serialize
    }

    /// Whether the cvar's value can be read from a document.
    pub fn can_deserialize(&self) -> (r: bool)
        ensures
            r == self@.deserialize,
    {
        self.deserialize
    }

    /// Returns an instance of the cvar's default value.
    pub fn default_inner(&self) -> (value: CVarValue)
        ensures
            value@ == self@.default_value,
    {
        self.default_value.duplicate()
    }

    /// Whether the resource still holds its default value.
    pub fn is_default_value(&self, cvar: &Resource) -> (r: bool)
        ensures
            r == cvar@.is_default(),
    {
        cvar.is_default()
    }

    /// The inner value of the cvar's resource.
    pub fn reflect_inner<'a>(&self, cvar: &'a Resource) -> (r: Result<&'a CVarValue, CVarError>)
        ensures
            match r {
                Ok(value) => inner_of(cvar@) == Ok::<ValueModel, CVarError>(value@),
                Err(e) => inner_of(cvar@) == Err::<ValueModel, CVarError>(e),
            },
    {
        match cvar.get() {
            Some(value) => Ok(value),
            None => Err(CVarError::BadCVarType),
        }
    }

    /// The inner value of the cvar's resource, to be modified in place.
    pub fn reflect_inner_mut<'a>(&self, cvar: &'a mut Resource) -> (r: Result<
        &'a mut CVarValue,
        CVarError,
    >)
        ensures
            match r {
                Ok(value) => {
                    &&& inner_of(old(cvar)@) == Ok::<ValueModel, CVarError>(value@)
                    &&& final(cvar)@ == old(cvar)@.with_inner(final(value)@)
                },
                Err(e) => inner_of(old(cvar)@) == Err::<ValueModel, CVarError>(e) && final(cvar)@
                    == old(cvar)@,
            },
    {
        match cvar.get_mut() {
            Some(value) => Ok(value),
            None => Err(CVarError::BadCVarType),
        }
    }

    /// Applies a value to the cvar's resource: the inner value is replaced
    /// as a whole. Fails, and leaves the resource as it is, if the resource
    /// has not the layout of a cvar or if the value has another type.
    pub fn reflect_apply(&self, cvar: &mut Resource, value: &CVarValue) -> (r: Result<
        (),
        CVarError,
    >)
        ensures
            match r {
                Ok(()) => apply_to(old(cvar)@, value@) == Ok::<ResourceState, CVarError>(
                    final(cvar)@,
                ),
                Err(e) => apply_to(old(cvar)@, value@) == Err::<ResourceState, CVarError>(e)
                    && final(cvar)@ == old(cvar)@,
            },
    {
        let ghost before = cvar@;
        match self.reflect_inner_mut(cvar) {
            Err(e) => Err(e),
            Ok(inner) => match inner.try_apply(value) {
                Ok(()) => Ok(()),
                Err(inner_error) => {
                    proof {
                        assert(before.with_inner(before.fields[0]) =~= before) by {
                            assert(before.fields.update(0, before.fields[0]) =~= before.fields);
                        }
                    }
                    Err(CVarError::FailedApply { inner: inner_error })
                },
            },
        }
    }
}

} // verus!
