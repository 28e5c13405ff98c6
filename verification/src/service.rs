//! The observer as a service of the system.

pub mod systemd;
