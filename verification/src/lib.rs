//! Gust: the core of a package manager for Swift packages.
//!
//! The library holds the rules of the package manager: the version-set
//! algebra and the callbacks that drive dependency resolution, the layout of
//! the content-addressed store, the build fingerprint, the lockfile diff and
//! the decisions of the installer. Reading files, running subprocesses and
//! talking to the network are left to the program built around it.

pub mod text;
pub mod json;
pub mod version;
pub mod namemap;
pub mod types;
pub mod resolver;
pub mod paths;
pub mod hasher;
pub mod store;
pub mod platform;
pub mod plugin;
pub mod binary_cache;
pub mod lockfile;
pub mod registry;
pub mod package_index;
pub mod builder;
pub mod workspace;
pub mod workspace_order;
pub mod fetch;
pub mod manifest;
pub mod installer;
pub mod updates;
