//! Hierarchical console variables ("cvars"): named, typed configuration
//! entries registered once under dotted paths, read and written through path
//! strings, layered from TOML documents and saved back selectively.
//!
//! A [`World`] holds the resources with the values and the
//! [`CVarManagement`] registry, which maps each path to the handle of its
//! resource. Values are set through [`WorldExtensions`], loaded with a
//! [`loader::ConfigLoader`] and saved with a [`save::CVarSaveContext`].

pub mod builtin;
pub mod codec;
pub mod collections;
pub mod cvar_doc;
pub mod defaults;
pub mod document;
pub mod error;
pub mod loader;
pub mod management;
pub mod parse;
pub mod path;
pub mod prelude;
pub mod reflect;
pub mod resource;
pub mod resources;
pub mod save;
pub mod ticks;
pub mod tree;
pub mod types;
pub mod value;
pub mod world;

pub use builtin::{cvar_modified_system, CVarsPlugin};
pub use error::CVarError;
pub use world::{World, WorldExtensions};
pub use management::CVarManagement;
pub use types::CVarFlags;
