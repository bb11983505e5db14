//! The logic of a Linux development environment installer: the curated
//! components and the actions chosen for them, the plan and course of an
//! installation, the commands and configuration updates of each phase, and
//! what the screens of the interactive installer show.
use vstd::prelude::*;

pub mod app;
pub mod cli;
pub mod config;
pub mod headless_config;
pub mod install;
pub mod manifest;
pub mod observe;
pub mod mise;
pub mod outcomes;
pub mod registry;
pub mod sys;
pub mod system;
pub mod text;
pub mod view;

verus! {
} // verus!
