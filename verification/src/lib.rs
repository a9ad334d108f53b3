//! A package manager's engine for Minecraft mod packs: a manifest of wanted
//! mods, the resolution of each to one catalog version, a lock of what was
//! resolved, and the plan that brings a directory in line with the lock.

pub mod add;
pub mod install;
pub mod io;
pub mod json;
pub mod lock;
pub mod manager;
pub mod manifest;
pub mod modrinth;
pub mod outdated;
pub mod remove;
pub mod repository;
pub mod resolver;
pub mod table;
pub mod text;
pub mod upgrade;
