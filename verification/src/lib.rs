//! Metadata coordinator core of a small distributed blob store: replica
//! placement, the durable record format, and the per-request decisions of the
//! coordinator, each stated as a contract and proved.

pub mod digest;
pub mod hashring;
pub mod locks;
pub mod record;
pub mod server;
