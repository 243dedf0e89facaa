//! The decisions behind initializing a project. The filesystem work around
//! them (searching for a configuration file, loading or writing one,
//! creating directories) is the I/O shell's; the rules of what happens when
//! are decided and proved here.

use vstd::prelude::*;

use crate::config::Config;
use crate::errors::Error;
use crate::paths::PathB;

verus! {

/// What initialization should do next, once the search for an existing
/// configuration has answered.
#[derive(Debug, PartialEq, Eq)]
pub enum InitAction {
    /// Load the configuration file the caller named explicitly.
    LoadExplicit(PathB),
    /// Load the discoverable configuration, or create the default one if
    /// loading fails.
    LoadOrCreateDefault,
}

/// The initialization rule: an explicitly named configuration file is
/// always loaded; otherwise a project that already has a discoverable
/// configuration must not be initialized again, and a project without one
/// gets the default. On `Err` nothing is created or changed.
pub fn init_project(explicit_config: Option<&PathB>, existing_config: Option<&PathB>) -> (r:
    Result<InitAction, Error>)
    ensures
        explicit_config is Some ==> r is Ok && (r.unwrap() matches InitAction::LoadExplicit(p)
            && p@ == explicit_config.unwrap()@),
        explicit_config is None && existing_config is Some ==> r == Err::<InitAction, Error>(
            Error::AlreadyInitialized,
        ),
        explicit_config is None && existing_config is None ==> r is Ok
            && r.unwrap() is LoadOrCreateDefault,
{
    match explicit_config {
        Some(path) => Ok(InitAction::LoadExplicit(path.clone())),
        None => match existing_config {
            Some(_) => Err(Error::AlreadyInitialized),
            None => Ok(InitAction::LoadOrCreateDefault),
        },
    }
}

/// The directories a fresh project gets, in the order they are created:
/// the macros, templates, and outputs folders.
pub fn init_directories(config: &Config) -> (r: Vec<String>)
    ensures
        r.deep_view() == seq![
            config@.macros_folder,
            config@.templates_folder,
            config@.outputs_folder,
        ],
{
    let mut r: Vec<String> = Vec::new();
    r.push(config.macros_folder.clone());
    r.push(config.templates_folder.clone());
    r.push(config.outputs_folder.clone());
    proof {
        assert(r.deep_view() =~= seq![
            config@.macros_folder,
            config@.templates_folder,
            config@.outputs_folder,
        ]);
    }
    r
}

} // verus!
