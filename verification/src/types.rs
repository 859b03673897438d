//! Account and transfer records and their 128-byte on-disk encodings.

use vstd::prelude::*;
use crate::bytes::{le_field, read_u16, read_u32, read_u64, read_u128};

verus! {

/// Size in bytes of one encoded account or transfer record.
pub const RECORD_SIZE: usize = 128;

/// Bit-flags stored on a TigerBeetle [`Account`] (a packed `u16` on disk).
#[derive(Debug, Clone, Copy, PartialEq, Eq, Default)]
pub struct AccountFlags(pub u16);

impl AccountFlags {
    /// The packed flag bits.
    pub open spec fn bits(self) -> u16 {
        self.0
    }

    /// When set, this account is linked to the next account in the batch.
    pub fn linked(self) -> (r: bool)
        ensures
            r == (self.bits() & 0x0001 != 0),
    {
        self.0 & 0x0001 != 0
    }

    /// Debits (pending + posted) must not exceed credits posted.
    pub fn debits_must_not_exceed_credits(self) -> (r: bool)
        ensures
            r == (self.bits() & 0x0002 != 0),
    {
        self.0 & 0x0002 != 0
    }

    /// Credits (pending + posted) must not exceed debits posted.
    pub fn credits_must_not_exceed_debits(self) -> (r: bool)
        ensures
            r == (self.bits() & 0x0004 != 0),
    {
        self.0 & 0x0004 != 0
    }

    /// Account balance history is retained for point-in-time queries.
    pub fn history(self) -> (r: bool)
        ensures
            r == (self.bits() & 0x0008 != 0),
    {
        self.0 & 0x0008 != 0
    }

    /// Account was created with the `imported` flag (batch-import mode).
    pub fn imported(self) -> (r: bool)
        ensures
            r == (self.bits() & 0x0010 != 0),
    {
        self.0 & 0x0010 != 0
    }

    /// Account has been closed and can no longer accept transfers.
    pub fn closed(self) -> (r: bool)
        ensures
            r == (self.bits() & 0x0020 != 0),
    {
        self.0 & 0x0020 != 0
    }

    /// Raw 16-bit flag value as stored on disk.
    pub fn raw(self) -> (r: u16)
        ensures
            r == self.bits(),
    {
        self.0
    }
}

impl From<u16> for AccountFlags {
    fn from(v: u16) -> (r: Self) {
        AccountFlags(v)
    }
}

impl vstd::std_specs::convert::FromSpecImpl<u16> for AccountFlags {
    open spec fn obeys_from_spec() -> bool {
        true
    }

    open spec fn from_spec(v: u16) -> Self {
        AccountFlags(v)
    }
}

/// A TigerBeetle account record.
///
/// Encoded as 128 little-endian bytes: `id`@0, `debits_pending`@16,
/// `debits_posted`@32, `credits_pending`@48, `credits_posted`@64,
/// `user_data_128`@80 (all u128), `user_data_64`@96 (u64),
/// `user_data_32`@104, `reserved`@108, `ledger`@112 (u32), `code`@116,
/// `flags`@118 (u16), `timestamp`@120 (u64).
#[derive(Debug, Clone, Copy, PartialEq, Eq)]
pub struct Account {
    /// Unique account identifier (application-defined).
    pub id: u128,
    /// Sum of pending debit amounts that have not yet posted.
    pub debits_pending: u128,
    /// Sum of posted (settled) debit amounts.
    pub debits_posted: u128,
    /// Sum of pending credit amounts that have not yet posted.
    pub credits_pending: u128,
    /// Sum of posted (settled) credit amounts.
    pub credits_posted: u128,
    /// Application-defined 128-bit opaque reference.
    pub user_data_128: u128,
    /// Application-defined 64-bit opaque reference.
    pub user_data_64: u64,
    /// Application-defined 32-bit opaque reference.
    pub user_data_32: u32,
    /// Reserved for future accounting policy primitives; must be zero.
    pub reserved: u32,
    /// Ledger identifier (groups accounts into distinct balance spaces).
    pub ledger: u32,
    /// Chart-of-accounts code describing the account type.
    pub code: u16,
    /// Account behaviour flags.
    pub flags: AccountFlags,
    /// Creation timestamp assigned by TigerBeetle (nanoseconds since epoch).
    pub timestamp: u64,
}

/// The account that the 128 bytes at `b[0 .. 128]` encode.
pub open spec fn spec_account_from_bytes(b: Seq<u8>) -> Account {
    Account {
        id: le_field(b, 0, 16) as u128,
        debits_pending: le_field(b, 16, 16) as u128,
        debits_posted: le_field(b, 32, 16) as u128,
        credits_pending: le_field(b, 48, 16) as u128,
        credits_posted: le_field(b, 64, 16) as u128,
        user_data_128: le_field(b, 80, 16) as u128,
        user_data_64: le_field(b, 96, 8) as u64,
        user_data_32: le_field(b, 104, 4) as u32,
        reserved: le_field(b, 108, 4) as u32,
        ledger: le_field(b, 112, 4) as u32,
        code: le_field(b, 116, 2) as u16,
        flags: AccountFlags(le_field(b, 118, 2) as u16),
        timestamp: le_field(b, 120, 8) as u64,
    }
}

impl Account {
    /// Decode an account from the first 128 bytes of `b`.
    pub fn from_bytes(b: &[u8]) -> (a: Account)
        requires
            b@.len() >= 128,
        ensures
            a == spec_account_from_bytes(b@),
    {
        Account {
            id: read_u128(b, 0),
            debits_pending: read_u128(b, 16),
            debits_posted: read_u128(b, 32),
            credits_pending: read_u128(b, 48),
            credits_posted: read_u128(b, 64),
            user_data_128: read_u128(b, 80),
            user_data_64: read_u64(b, 96),
            user_data_32: read_u32(b, 104),
            reserved: read_u32(b, 108),
            ledger: read_u32(b, 112),
            code: read_u16(b, 116),
            flags: AccountFlags(read_u16(b, 118)),
            timestamp: read_u64(b, 120),
        }
    }
}

/// Bit-flags stored on a TigerBeetle [`Transfer`] (a packed `u16` on disk).
#[derive(Debug, Clone, Copy, PartialEq, Eq, Default)]
pub struct TransferFlags(pub u16);

impl TransferFlags {
    /// The packed flag bits.
    pub open spec fn bits(self) -> u16 {
        self.0
    }

    /// When set, this transfer is linked to the next transfer in the batch.
    pub fn linked(self) -> (r: bool)
        ensures
            r == (self.bits() & 0x0001 != 0),
    {
        self.0 & 0x0001 != 0
    }

    /// Transfer is pending: it reserves funds but does not post them.
    pub fn pending(self) -> (r: bool)
        ensures
            r == (self.bits() & 0x0002 != 0),
    {
        self.0 & 0x0002 != 0
    }

    /// Transfer posts a previously created pending transfer.
    pub fn post_pending_transfer(self) -> (r: bool)
        ensures
            r == (self.bits() & 0x0004 != 0),
    {
        self.0 & 0x0004 != 0
    }

    /// Transfer voids a previously created pending transfer.
    pub fn void_pending_transfer(self) -> (r: bool)
        ensures
            r == (self.bits() & 0x0008 != 0),
    {
        self.0 & 0x0008 != 0
    }

    /// The amount is capped by the debit account's available balance.
    pub fn balancing_debit(self) -> (r: bool)
        ensures
            r == (self.bits() & 0x0010 != 0),
    {
        self.0 & 0x0010 != 0
    }

    /// The amount is capped by the credit account's available balance.
    pub fn balancing_credit(self) -> (r: bool)
        ensures
            r == (self.bits() & 0x0020 != 0),
    {
        self.0 & 0x0020 != 0
    }

    /// The debit account is closed after this transfer settles.
    pub fn closing_debit(self) -> (r: bool)
        ensures
            r == (self.bits() & 0x0040 != 0),
    {
        self.0 & 0x0040 != 0
    }

    /// The credit account is closed after this transfer settles.
    pub fn closing_credit(self) -> (r: bool)
        ensures
            r == (self.bits() & 0x0080 != 0),
    {
        self.0 & 0x0080 != 0
    }

    /// Transfer was created with the `imported` flag (batch-import mode).
    pub fn imported(self) -> (r: bool)
        ensures
            r == (self.bits() & 0x0100 != 0),
    {
        self.0 & 0x0100 != 0
    }

    /// Raw 16-bit flag value as stored on disk.
    pub fn raw(self) -> (r: u16)
        ensures
            r == self.bits(),
    {
        self.0
    }
}

impl From<u16> for TransferFlags {
    fn from(v: u16) -> (r: Self) {
        TransferFlags(v)
    }
}

impl vstd::std_specs::convert::FromSpecImpl<u16> for TransferFlags {
    open spec fn obeys_from_spec() -> bool {
        true
    }

    open spec fn from_spec(v: u16) -> Self {
        TransferFlags(v)
    }
}

/// A TigerBeetle transfer record.
///
/// Encoded as 128 little-endian bytes: `id`@0, `debit_account_id`@16,
/// `credit_account_id`@32, `amount`@48, `pending_id`@64,
/// `user_data_128`@80 (all u128), `user_data_64`@96 (u64),
/// `user_data_32`@104, `timeout`@108, `ledger`@112 (u32), `code`@116,
/// `flags`@118 (u16), `timestamp`@120 (u64).
#[derive(Debug, Clone, Copy, PartialEq, Eq)]
pub struct Transfer {
    /// Unique transfer identifier (application-defined).
    pub id: u128,
    /// Account to debit (funds flow out of this account).
    pub debit_account_id: u128,
    /// Account to credit (funds flow into this account).
    pub credit_account_id: u128,
    /// Amount transferred (in the unit of the ledger).
    pub amount: u128,
    /// If posting or voiding a pending transfer, the id of that transfer.
    pub pending_id: u128,
    /// Application-defined 128-bit opaque reference.
    pub user_data_128: u128,
    /// Application-defined 64-bit opaque reference.
    pub user_data_64: u64,
    /// Application-defined 32-bit opaque reference.
    pub user_data_32: u32,
    /// Timeout in seconds for pending transfers (0 = no timeout).
    pub timeout: u32,
    /// Ledger identifier; must match both account ledgers.
    pub ledger: u32,
    /// Chart-of-accounts code describing the reason for the transfer.
    pub code: u16,
    /// Transfer behaviour flags.
    pub flags: TransferFlags,
    /// Creation timestamp assigned by TigerBeetle (nanoseconds since epoch).
    pub timestamp: u64,
}

/// The transfer that the 128 bytes at `b[0 .. 128]` encode.
pub open spec fn spec_transfer_from_bytes(b: Seq<u8>) -> Transfer {
    Transfer {
        id: le_field(b, 0, 16) as u128,
        debit_account_id: le_field(b, 16, 16) as u128,
        credit_account_id: le_field(b, 32, 16) as u128,
        amount: le_field(b, 48, 16) as u128,
        pending_id: le_field(b, 64, 16) as u128,
        user_data_128: le_field(b, 80, 16) as u128,
        user_data_64: le_field(b, 96, 8) as u64,
        user_data_32: le_field(b, 104, 4) as u32,
        timeout: le_field(b, 108, 4) as u32,
        ledger: le_field(b, 112, 4) as u32,
        code: le_field(b, 116, 2) as u16,
        flags: TransferFlags(le_field(b, 118, 2) as u16),
        timestamp: le_field(b, 120, 8) as u64,
    }
}

impl Transfer {
    /// Decode a transfer from the first 128 bytes of `b`.
    pub fn from_bytes(b: &[u8]) -> (t: Transfer)
        requires
            b@.len() >= 128,
        ensures
            t == spec_transfer_from_bytes(b@),
    {
        Transfer {
            id: read_u128(b, 0),
            debit_account_id: read_u128(b, 16),
            credit_account_id: read_u128(b, 32),
            amount: read_u128(b, 48),
            pending_id: read_u128(b, 64),
            user_data_128: read_u128(b, 80),
            user_data_64: read_u64(b, 96),
            user_data_32: read_u32(b, 104),
            timeout: read_u32(b, 108),
            ledger: read_u32(b, 112),
            code: read_u16(b, 116),
            flags: TransferFlags(read_u16(b, 118)),
            timestamp: read_u64(b, 120),
        }
    }
}

/// Records that live in 128-byte slots of value blocks and WAL bodies.
pub trait TBObject: Sized {
    /// The record that the first 128 bytes of `b` encode.
    spec fn spec_from_bytes(b: Seq<u8>) -> Self;

    /// Whether the record is a padding or sentinel slot.
    spec fn spec_is_padding(&self) -> bool;

    /// Decode from the first 128 bytes of `b`.
    fn decode(b: &[u8]) -> (r: Self)
        requires
            b@.len() >= 128,
        ensures
            r == Self::spec_from_bytes(b@),
    ;

    /// Return `true` for padding and sentinel slots, which readers skip.
    fn is_padding(&self) -> (r: bool)
        ensures
            r == self.spec_is_padding(),
    ;

    /// WAL operation code of the prepares that create this record type.
    fn wal_operation() -> (op: u8)
        ensures
            op == Self::spec_wal_operation(),
    ;

    /// WAL operation code of the prepares that create this record type.
    spec fn spec_wal_operation() -> u8;

    /// The record's identifier.
    spec fn spec_id(&self) -> u128;

    /// The record's identifier.
    fn id_of(&self) -> (id: u128)
        ensures
            id == self.spec_id(),
    ;
}

impl TBObject for Account {
    open spec fn spec_from_bytes(b: Seq<u8>) -> Self {
        spec_account_from_bytes(b)
    }

    /// `id == 0` marks a padding slot and `id == u128::MAX` the LSM sentinel key.
    open spec fn spec_is_padding(&self) -> bool {
        self.id == 0 || self.id == u128::MAX
    }

    fn decode(b: &[u8]) -> (r: Self) {
        Account::from_bytes(b)
    }

    fn is_padding(&self) -> (r: bool) {
        self.id == 0 || self.id == u128::MAX
    }

    /// `create_accounts`.
    open spec fn spec_wal_operation() -> u8 {
        138
    }

    fn wal_operation() -> (op: u8) {
        138
    }

    open spec fn spec_id(&self) -> u128 {
        self.id
    }

    fn id_of(&self) -> (id: u128) {
        self.id
    }
}

impl TBObject for Transfer {
    open spec fn spec_from_bytes(b: Seq<u8>) -> Self {
        spec_transfer_from_bytes(b)
    }

    /// `id == 0` marks a padding slot and `id == u128::MAX` the LSM sentinel key.
    open spec fn spec_is_padding(&self) -> bool {
        self.id == 0 || self.id == u128::MAX
    }

    fn decode(b: &[u8]) -> (r: Self) {
        Transfer::from_bytes(b)
    }

    fn is_padding(&self) -> (r: bool) {
        self.id == 0 || self.id == u128::MAX
    }

    /// `create_transfers`.
    open spec fn spec_wal_operation() -> u8 {
        139
    }

    fn wal_operation() -> (op: u8) {
        139
    }

    open spec fn spec_id(&self) -> u128 {
        self.id
    }

    fn id_of(&self) -> (id: u128) {
        self.id
    }
}

/// The kind of event recorded in a manifest log entry.
#[derive(Debug, Clone, Copy, PartialEq, Eq)]
pub enum ManifestEvent {
    /// Table was compacted into this level (live).
    Insert,
    /// Table metadata was updated (still live).
    Update,
    /// Table was compacted away (no longer live).
    Remove,
}

/// A row from the manifest log describing one LSM table.
#[derive(Debug, Clone)]
pub struct TableInfo {
    /// 1-indexed grid block address of the table's index block.
    pub address: u64,
    /// LSM tree identifier (7 = accounts, 18 = transfers).
    pub tree_id: u16,
    /// Whether this manifest entry creates, updates, or removes the table.
    pub event: ManifestEvent,
}

/// The event encoded in the top two bits of a manifest label byte
/// (`None` for the reserved value 0).
pub open spec fn spec_label_event(label: u8) -> Option<ManifestEvent> {
    let bits = label / 64;
    if bits == 1 {
        Some(ManifestEvent::Insert)
    } else if bits == 2 {
        Some(ManifestEvent::Update)
    } else if bits == 3 {
        Some(ManifestEvent::Remove)
    } else {
        None
    }
}

/// The table row that the 128 bytes at `b[0 .. 128]` encode: `address`@96
/// (u64), `tree_id`@124 (u16), label byte @126 whose bits 7..6 are the event.
pub open spec fn spec_table_info_from_bytes(b: Seq<u8>) -> Option<TableInfo> {
    match spec_label_event(b[126]) {
        Some(event) => Some(TableInfo {
            address: le_field(b, 96, 8) as u64,
            tree_id: le_field(b, 124, 2) as u16,
            event,
        }),
        None => None,
    }
}

impl TableInfo {
    /// Parse a manifest table row from the first 128 bytes of `b`; `None`
    /// when the label's event bits hold the reserved value 0.
    pub fn from_bytes(b: &[u8]) -> (r: Option<TableInfo>)
        requires
            b@.len() >= 128,
        ensures
            r == spec_table_info_from_bytes(b@),
    {
        let address = read_u64(b, 96);
        let tree_id = read_u16(b, 124);
        let label = b[126];
        let event_bits = label / 64;
        let event = if event_bits == 1 {
            ManifestEvent::Insert
        } else if event_bits == 2 {
            ManifestEvent::Update
        } else if event_bits == 3 {
            ManifestEvent::Remove
        } else {
            return None;
        };
        Some(TableInfo { address, tree_id, event })
    }
}

} // verus!
