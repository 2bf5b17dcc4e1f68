//! A host environment for shared modules.
//!
//! A guest (a parachain's validation function) runs in isolation from the
//! host. Through a call gateway it reaches shared modules: extension units
//! that the host registers for it, each with a storage and a mailbox of its
//! own. A shared module reaches its storage and its mailbox through a gateway
//! of its own, and exchanges messages with its counterparts on other guests
//! through the mailbox, which the host relays.
//!
//! - [`memory`] moves bytes between the host and a guest's linear memory,
//!   within bounds.
//! - [`gateway`] checks the signature of an import; [`parachain`] and
//!   [`spree`] hold the two gateways, the driver that finds the module that a
//!   call names, and the runtime of a shared module.
//! - [`store`] is a runtime's persistent storage.
//! - [`scale`], [`wire`] and [`primitives`] are the binary encoding and the
//!   values that cross the boundary in it.
//! - [`lamport_clock`] is the shared module that there is: a queue of
//!   messages that are stamped with a logical clock. [`dummy_parachain`] is a
//!   guest that calls it.
//! - [`laws`] states what holds of all of these together.
//!
//! The interpreter that runs a guest's code is not part of the library. It
//! hands the library each host call with its index, its arguments and the
//! guest's memory, and the library says what the call does.

pub mod error;
pub mod scale;
pub mod wire;
pub mod primitives;
pub mod memory;
pub mod store;
pub mod gateway;
pub mod spree;
pub mod lamport_clock;
pub mod parachain;
pub mod dummy_parachain;
pub mod laws;
