//! An in-memory record service: a slot-recycling record store, a router that
//! classifies requests, and a dispatcher that runs them against the store.
pub mod dispatch;
pub mod router;
pub mod store;

pub use dispatch::{dispatch, handle, join_ids, Body, Response, Status, UserData};
pub use router::{route, Action, Method};
pub use store::{NotFound, RecordStore, StoreOp};
