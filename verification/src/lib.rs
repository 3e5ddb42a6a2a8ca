//! A single-user ticket tracker: validated value types (titles, comments,
//! statuses), the ticket record itself, and an in-memory store that owns all
//! tickets, hands out unique monotonically increasing identifiers, and offers
//! the create / get / list / update / move / comment / delete operations.
//!
//! Everything here is in-memory logic with full contracts; argument parsing
//! and persistence to disk live outside the library and talk to it through
//! plain values.

use vstd::prelude::*;

pub mod models;
pub mod store;

use crate::models::Status;

verus! {

/// A single parsed command, one per process invocation.  The surrounding
/// program turns raw command-line text into one of these (validating the
/// strings through the value-type constructors) and then makes the matching
/// store call.
#[derive(Debug, Clone)]
pub enum Command {
    Create { description: String, title: String },
    Edit { ticket_id: u64, title: Option<String>, description: Option<String> },
    Delete { ticket_id: u64 },
    List,
    Move { ticket_id: u64, status: Status },
    Comment { ticket_id: u64, comment: String },
}

} // verus!
