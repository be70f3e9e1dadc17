//! Steam account switching on Windows, reduced to the two state sources that Steam reads:
//! the `AutoLoginUser` registry value and `Steam\config\loginusers.vdf`.
//!
//! The library holds the `loginusers.vdf` reader and writer, the account model and its
//! ordering, the path resolution rules and the orchestration of the three commands
//! (`refresh`, `login-new`, `start`) over abstract registry, process and file services.
//!
//! Module map:
//! - `text`: case folding, trimming, decimal integers, text order;
//! - `vdf`, `vdf_parse`, `vdf_render`: the KeyValues tree, its reader and its writer;
//! - `vdf_roundtrip`, `vdf_rewrite`: what reading back a written document gives, and what a
//!   switch changes;
//! - `loginusers_vdf`: accounts in `loginusers.vdf` and the switch itself;
//! - `steam`: the account model and the listing order;
//! - `paths`, `registry`, `process_control`: installation paths and the services the commands
//!   use;
//! - `app`: the three commands;
//! - `presentation`: what the command line prints.

pub mod app;
pub mod error;
pub mod loginusers_vdf;
pub mod paths;
pub mod presentation;
pub mod process_control;
pub mod registry;
pub mod steam;
pub mod text;
pub mod vdf;
pub mod vdf_parse;
pub mod vdf_render;
pub mod vdf_rewrite;
pub mod vdf_roundtrip;

pub use app::{App, FileStore, StartRequest};
pub use error::{AppError, VdfError};
pub use loginusers_vdf::LoginUsersVdf;
pub use paths::{PathOverrides, ResolvedLaunchPaths, ResolvedSteamPaths, resolve_launch_paths, resolve_steam_paths};
pub use process_control::ProcessController;
pub use registry::RegistryStore;
pub use steam::{AccountSelector, StartMode, SteamAccount, format_timestamp, sort_accounts};
