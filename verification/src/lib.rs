//! Core of a disk-usage monitor: discovery of mounted filesystems from a
//! device-management property catalog, capacity arithmetic, and the
//! threshold alerts with their cooldown.

pub mod alert;
pub mod applet;
pub mod config;
pub mod space;
pub mod strmap;
pub mod text;
pub mod udisks;
pub mod value;
