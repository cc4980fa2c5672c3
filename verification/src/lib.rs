//! In-memory emulation of an Open Build Service instance: projects holding
//! packages with content-addressed source files and append-only revision
//! histories, a per-repository/per-architecture build-result matrix with
//! retrievable logs, the request-handling rules of the service's protocol
//! surface, and the client-side status monitor that polls the result matrix.

use vstd::prelude::*;

pub mod assoc;
pub mod checksum;
pub mod codes;
pub mod clock;
pub mod error;
pub mod handlers_build;
pub mod handlers_source;
pub mod source;
pub mod laws;
pub mod monitor;
pub mod numtext;
pub mod project;
pub mod registry;
pub mod request;
pub mod xmltext;

verus! {

/// User name that internally generated revisions are attributed to.
pub const ADMIN_USER: &'static str = "Admin";

} // verus!
