//! Error types.

use vstd::prelude::*;
use vstd::string::StringExecFns;
use crate::text::{decimal, push_decimal};

verus! {

/// Errors that can occur while reading a TigerBeetle data file.
#[derive(Debug)]
pub enum ReaderError {
    /// An I/O error occurred while reading the file.
    Io(String),
    /// No valid superblock was found (the file is not a TigerBeetle data
    /// file, or it has never been formatted / written to).
    InvalidSuperblock(String),
    /// A grid block failed structural validation.
    InvalidBlock(String),
    /// The cluster has started (superblock sequence > 0) but has never
    /// triggered a checkpoint, so no LSM data exists on disk yet.
    NotCheckpointed {
        /// The superblock sequence number (confirms the file is active).
        sequence: u64,
    },
}

/// Text of the explanation that follows the sequence number of
/// [`ReaderError::NotCheckpointed`].
pub const NOT_CHECKPOINTED_TAIL: &'static str = "): the cluster has started but has not committed enough operations to trigger its first LSM checkpoint (~960 ops for production config); query the live cluster via the TigerBeetle client instead";

/// The human-readable description of a reader error.
pub open spec fn reader_error_text(e: ReaderError) -> Seq<char> {
    match e {
        ReaderError::Io(m) => "I/O error: "@ + m@,
        ReaderError::InvalidSuperblock(m) => "invalid superblock: "@ + m@,
        ReaderError::InvalidBlock(m) => "invalid block: "@ + m@,
        ReaderError::NotCheckpointed { sequence } => "no checkpoint yet (superblock sequence="@
            + decimal(sequence as nat) + NOT_CHECKPOINTED_TAIL@,
    }
}

impl ReaderError {
    /// The human-readable description of this error.
    pub fn to_display_string(&self) -> (s: String)
        ensures
            s@ == reader_error_text(*self),
    {
        match self {
            ReaderError::Io(m) => {
                let mut s = String::from_str("I/O error: ");
                s.append(m.as_str());
                s
            },
            ReaderError::InvalidSuperblock(m) => {
                let mut s = String::from_str("invalid superblock: ");
                s.append(m.as_str());
                s
            },
            ReaderError::InvalidBlock(m) => {
                let mut s = String::from_str("invalid block: ");
                s.append(m.as_str());
                s
            },
            ReaderError::NotCheckpointed { sequence } => {
                let mut s = String::from_str("no checkpoint yet (superblock sequence=");
                push_decimal(&mut s, *sequence as u128);
                s.append(NOT_CHECKPOINTED_TAIL);
                s
            },
        }
    }
}

/// Errors that can occur during compression and import.
#[derive(Debug)]
pub enum CompressorError {
    /// Error reading from the source data file.
    Reader(ReaderError),
    /// Error communicating with the TigerBeetle cluster.
    Client(String),
    /// Account creation failed for some accounts.
    AccountCreationFailed(usize),
    /// Transfer creation failed for some transfers.
    TransferCreationFailed(usize),
    /// Invalid configuration or plan.
    InvalidPlan(String),
}

impl From<ReaderError> for CompressorError {
    fn from(e: ReaderError) -> (r: CompressorError) {
        CompressorError::Reader(e)
    }
}

impl vstd::std_specs::convert::FromSpecImpl<ReaderError> for CompressorError {
    open spec fn obeys_from_spec() -> bool {
        true
    }

    open spec fn from_spec(e: ReaderError) -> Self {
        CompressorError::Reader(e)
    }
}

/// Errors that can occur during TigerBeetle process management.
#[derive(Debug)]
pub enum ManagerError {
    /// Error spawning or managing the child process.
    Process(String),
    /// Error during a backup operation.
    Backup(String),
    /// I/O error (its description).
    Io(String),
    /// Compression error.
    Compression(String),
    /// Object-storage error.
    S3(String),
}

impl CompressorError {
    /// The human-readable description of this error.
    pub fn to_display_string(&self) -> (s: String)
        ensures
            s@ == match self {
                CompressorError::Reader(e) => "reader error: "@ + reader_error_text(*e),
                CompressorError::Client(m) => "TigerBeetle client error: "@ + m@,
                CompressorError::AccountCreationFailed(n) => "failed to create "@ + decimal(
                    *n as nat,
                ) + " account(s)"@,
                CompressorError::TransferCreationFailed(n) => "failed to create "@ + decimal(
                    *n as nat,
                ) + " transfer(s)"@,
                CompressorError::InvalidPlan(m) => "invalid plan: "@ + m@,
            },
    {
        match self {
            CompressorError::Reader(e) => {
                let mut s = String::from_str("reader error: ");
                let d = e.to_display_string();
                s.append(d.as_str());
                s
            },
            CompressorError::Client(m) => {
                let mut s = String::from_str("TigerBeetle client error: ");
                s.append(m.as_str());
                s
            },
            CompressorError::AccountCreationFailed(n) => {
                let mut s = String::from_str("failed to create ");
                push_decimal(&mut s, *n as u128);
                s.append(" account(s)");
                s
            },
            CompressorError::TransferCreationFailed(n) => {
                let mut s = String::from_str("failed to create ");
                push_decimal(&mut s, *n as u128);
                s.append(" transfer(s)");
                s
            },
            CompressorError::InvalidPlan(m) => {
                let mut s = String::from_str("invalid plan: ");
                s.append(m.as_str());
                s
            },
        }
    }
}

impl ManagerError {
    /// The human-readable description of this error.
    pub fn to_display_string(&self) -> (s: String)
        ensures
            s@ == match self {
                ManagerError::Process(m) => "process error: "@ + m@,
                ManagerError::Backup(m) => "backup error: "@ + m@,
                ManagerError::Io(m) => "I/O error: "@ + m@,
                ManagerError::Compression(m) => "compression error: "@ + m@,
                ManagerError::S3(m) => "S3 error: "@ + m@,
            },
    {
        let (prefix, m) = match self {
            ManagerError::Process(m) => ("process error: ", m),
            ManagerError::Backup(m) => ("backup error: ", m),
            ManagerError::Io(m) => ("I/O error: ", m),
            ManagerError::Compression(m) => ("compression error: ", m),
            ManagerError::S3(m) => ("S3 error: ", m),
        };
        let mut s = String::from_str(prefix);
        s.append(m.as_str());
        s
    }
}

} // verus!
