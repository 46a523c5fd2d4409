//! Keeps the configuration slots of a serial device and a server-side store in step.
//!
//! The device speaks a line protocol over a serial port ([`codec`]) and holds its slots in
//! a fixed byte layout ([`layout`]). The store ([`store`]) is the copy that clients read
//! and write. Once per interval the device is looked for among the serial ports
//! ([`port`]) and read; what it reports is merged into the store ([`reconcile`]), and what
//! clients have changed in the meantime is written back. The cycle is a state machine
//! ([`sync`]) that decides and leaves all I/O to its driver.

pub mod base16;
pub mod codec;
pub mod layout;
pub mod port;
pub mod reconcile;
pub mod slot;
pub mod store;
pub mod sync;
pub mod text;
