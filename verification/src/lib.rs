//! Core of a serial-port platform service: classification of TTY device
//! nodes against the system driver table, USB vendor/product identification
//! over a modelled attribute tree, and the event-driven registry of serial
//! ports with its listener and open protocol.
pub mod device_events_handler;
pub mod driver_type_finder;
pub mod serial_manager;
pub mod serial_port_info;
pub mod text;
pub mod usb_identity;
