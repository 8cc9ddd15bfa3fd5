//! Which overlays a command is about.

use crate::text;
use vstd::prelude::*;

verus! {

/// The overlays that a command is about.
#[derive(Debug, PartialEq, Eq)]
pub enum Selection {
    /// The overlay with this name.
    Named(String),
    /// Every overlay.
    All,
    /// The overlay that the user picks.
    Ask,
}

/// The overlays of a command that is about all of them unless told otherwise: the
/// named one, else all where that is asked for, else the default one, else all.
pub fn select_many(name: &Option<String>, all: bool, default_overlay: &Option<String>) -> (r:
    Selection)
    ensures
        match r {
            Selection::Named(n) => text::opt_text(*name) == Some(n@) || (name is None && !all
                && text::opt_text(*default_overlay) == Some(n@)),
            Selection::All => name is None && (all || default_overlay is None),
            Selection::Ask => false,
        },
{
    if let Some(n) = name {
        return Selection::Named(n.clone());
    }
    if all {
        return Selection::All;
    }
    match default_overlay {
        Some(d) => Selection::Named(d.clone()),
        None => Selection::All,
    }
}

/// The overlay of a command that is about one: the named one, else the default
/// one, else the one that the user picks.
pub fn select_one(name: &Option<String>, default_overlay: &Option<String>) -> (r: Selection)
    ensures
        match r {
            Selection::Named(n) => text::opt_text(*name) == Some(n@) || (name is None && text::opt_text(
                *default_overlay,
            ) == Some(n@)),
            Selection::All => false,
            Selection::Ask => name is None && default_overlay is None,
        },
{
    if let Some(n) = name {
        return Selection::Named(n.clone());
    }
    match default_overlay {
        Some(d) => Selection::Named(d.clone()),
        None => Selection::Ask,
    }
}

/// The error where there is nothing to pick from.
pub fn check_choices(overlays: usize) -> (r: Result<(), String>)
    ensures
        match r {
            Ok(_) => overlays > 0,
            Err(e) => overlays == 0 && e@ == "no overlays found in repository"@,
        },
{
    if overlays == 0 {
        return Err("no overlays found in repository".to_owned());
    }
    Ok(())
}

} // verus!
