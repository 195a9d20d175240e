//! Shared application state handed to request handlers: reference-counted
//! handles to the store and the file rack.

use vstd::prelude::*;

use std::sync::Arc;

use crate::db::Database;
use crate::fr::FileRack;

verus! {

/// A handle to the entity store, cloned into each handler.
pub struct DbState<DB: Database> {
    pub db: Arc<DB>,
}

/// A handle to the file rack, cloned into each handler.
pub struct FrState<FR: FileRack> {
    pub fr: Arc<FR>,
}

} // verus!
