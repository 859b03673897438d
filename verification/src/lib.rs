//! Read TigerBeetle data files, plan balance-snapshot migrations, and drive
//! the decisions of a TigerBeetle process manager.
//!
//! Everything in this crate is pure computation over plain values: the byte
//! layouts of the data file, the migration planner, the import schedule and
//! the request handling of a manager node. Reading files, talking to a
//! cluster and running processes is left to the caller, which hands the
//! bytes and events it obtains to the functions here.
//!
//! Modules:
//! - data file format: [`bytes`], [`types`], [`layout`], [`block`],
//!   [`superblock`], [`manifest`], [`lsm`], [`wal`], [`reader`], [`error`];
//! - migration: [`sort`], [`plan`], [`plan_laws`], [`import`];
//! - process management: [`manager`], [`supervisor`], [`node`], [`text`].

pub mod bytes;
pub mod types;
pub mod error;
pub mod text;
pub mod layout;
pub mod block;
pub mod superblock;
pub mod manifest;
pub mod lsm;
pub mod wal;
pub mod reader;
pub mod sort;
pub mod plan;
pub mod plan_laws;
pub mod import;
pub mod manager;
pub mod supervisor;
pub mod node;
