//! Driver for chains of P9813 RGB LED controllers.
//!
//! A chain is set by one transaction on a clocked serial bus: a start marker,
//! four bytes for each device, an end marker. `frame` holds that wire format,
//! `transport` the one capability that the driver needs from the bus, and
//! `controller` the driver itself. Any bus drives a chain once it implements
//! `Transport`; for an SPI device that is a call of its write.

pub mod controller;
pub mod frame;
pub mod transport;

pub use controller::{P9813, MAX_CLOCK_FREQUENCY};
pub use frame::{color_to_array, encode_transaction, Color};
pub use transport::Transport;
