//! The most common types of the library.

pub use crate::builtin::CVarsPlugin;
pub use crate::defaults::IsDefault;
pub use crate::world::{World, WorldExtensions};
pub use crate::loader::{CVarLoaderPlugin, CVarLoaderPluginBuilder};
pub use crate::parse::CVarOverride;
pub use crate::save::CVarSaveContext;
pub use crate::types::CVarFlags;
