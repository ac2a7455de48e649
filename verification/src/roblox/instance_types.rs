//! The kinds of instances and what each of them carries.

use vstd::prelude::*;

verus! {

/// A folder: it carries nothing of its own.
#[derive(Debug, PartialEq, Eq)]
pub struct RobloxFolder {}

/// A module script and its source.
#[derive(Debug, PartialEq, Eq)]
pub struct RobloxModuleScript {
    pub source: String,
}

/// A server script and its source.
#[derive(Debug, PartialEq, Eq)]
pub struct RobloxServerScript {
    pub source: String,
}

/// A local script and its source.
#[derive(Debug, PartialEq, Eq)]
pub struct RobloxLocalScript {
    pub source: String,
}

} // verus!
