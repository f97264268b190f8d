//! Connection collection, traffic accounting and diagnosis rules of a
//! proxy-management desktop client, with their contracts.
use vstd::prelude::*;

pub mod ai;
pub mod alert;
pub mod buffer;
pub mod callback;
pub mod change;
pub mod clock;
pub mod collector;
pub mod connect;
pub mod db;
pub mod disconnect;
pub mod document;
pub mod geo;
pub mod ingest;
pub mod migration;
pub mod notification;
pub mod observation;
pub mod pending;
pub mod proxy;
pub mod ranking;
pub mod realtime;
pub mod record;
pub mod report;
pub mod session;
pub mod sidecar;
pub mod snapshot;
pub mod stats;
pub mod table;
pub mod text;
pub mod window;

verus! {
} // verus!
