//! Verified core of a flash-programming toolchain for embedded targets.
//!
//! The crate has two subsystems:
//!
//! * a flash layout and programming engine ([`builder`]) that collects write
//!   requests, lays them out as sectors and pages over a flash geometry
//!   ([`region`]), and produces the exact sequence of erase / program
//!   operations to run against the device, and
//! * an ST-Link probe command layer ([`stlink`]) that encodes Debug Access
//!   Port commands and drives the probe's mode / version / access-port state
//!   machines.
//!
//! Both subsystems are pure: all device I/O (USB transfers, on-target flash
//! calls) is performed by the caller, which executes the plans and feeds
//! responses back into the state machines.

pub mod builder;
pub mod constants;
pub mod region;
pub mod stlink;
