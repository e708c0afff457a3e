//! Data model of the registry: identifiers, class types, callers, records
//! and the error taxonomy shared by every operation.

use vstd::prelude::*;

verus! {

/// Greatest number of metadata bytes a class or an instance may carry.
/// A longer metadata sequence is rejected, never truncated.
pub const MAX_METADATA_LEN: usize = 256;

/// Greatest number of instances a single `mint` call may create.
pub const MAX_MINT_PER_CALL: u64 = 100;

/// Flat part of the deposit reserved for each minted instance.
pub const DEPOSIT_BASE: u64 = 10;

/// Deposit reserved per byte of a minted instance's metadata.
pub const DEPOSIT_PER_BYTE: u64 = 1;

/// Policy tag of a class: public classes are open to any signed account,
/// privileged classes demand root authority for creation, minting and
/// destruction.
#[derive(Clone, Copy, Debug, PartialEq, Eq, Structural)]
pub enum ClassType {
    /// A public class: any signed account may create one and mint into it.
    Marketplace,
    /// A privileged class: only a root caller may create one or mint into it.
    PoolShare,
}

impl ClassType {
    /// Whether this class type demands root authority.
    pub open spec fn spec_privileged(self) -> bool {
        self == ClassType::PoolShare
    }

    /// Whether this class type demands root authority.
    #[verifier::when_used_as_spec(spec_privileged)]
    pub fn privileged(self) -> (r: bool)
        ensures
            r == self.spec_privileged(),
    {
        match self {
            ClassType::PoolShare => true,
            ClassType::Marketplace => false,
        }
    }
}

/// The resolved identity of a caller: the account it acts as, and whether it
/// carries root (system-level) authority on top of its signature.
#[derive(Clone, Copy, Debug, PartialEq, Eq, Structural)]
pub struct Origin {
    /// The signed account the caller acts as.
    pub account: u64,
    /// Whether the caller holds root authority.
    pub root: bool,
}

impl Origin {
    /// An ordinary signed caller without root authority.
    pub fn signed(account: u64) -> (r: Origin)
        ensures
            r.account == account,
            !r.root,
    {
        Origin { account, root: false }
    }

    /// A caller acting as `account` with root authority.
    pub fn root(account: u64) -> (r: Origin)
        ensures
            r.account == account,
            r.root,
    {
        Origin { account, root: true }
    }
}

/// The optional secondary reference an instance may carry: another account,
/// or another instance identified by its (class, instance) pair.
#[derive(Clone, Copy, Debug, PartialEq, Eq, Structural)]
pub enum SecondaryRef {
    /// A reference to an account.
    Account(u64),
    /// A reference to another instance, by class id and instance id.
    Nft(u64, u64),
}

/// Every way an operation can be rejected. A rejected operation has no
/// effect on the registry.
#[derive(Clone, Copy, Debug, PartialEq, Eq, Structural)]
pub enum Error {
    /// The caller lacks the authority the operation demands.
    NotPermitted,
    /// No class with the given id exists.
    ClassUnknown,
    /// No instance with the given (class, instance) pair exists.
    InstanceUnknown,
    /// The class still holds live instances and cannot be destroyed.
    ClassNotEmpty,
    /// The metadata exceeds `MAX_METADATA_LEN` bytes.
    MetadataTooLong,
    /// The class-id counter is exhausted.
    NoAvailableClassId,
    /// The instance-id counter of the class is exhausted.
    NoAvailableInstanceId,
    /// The requested quantity lies outside `1 ..= MAX_MINT_PER_CALL`.
    NotInRange,
    /// The depositor's free balance cannot cover the deposit.
    InsufficientBalance,
}

/// One event, emitted per successful state transition and carrying the
/// identifiers the transition touched. A rejected operation emits nothing.
#[derive(Clone, Copy, Debug, PartialEq, Eq, Structural)]
pub enum Event {
    /// A class was created.
    ClassCreated { class_id: u64, owner: u64 },
    /// `quantity` instances were minted, their ids consecutive from
    /// `first_instance_id`.
    Minted { class_id: u64, first_instance_id: u64, quantity: u64, owner: u64 },
    /// An instance changed owner.
    Transferred { class_id: u64, instance_id: u64, new_owner: u64 },
    /// An instance was burned.
    Burned { class_id: u64, instance_id: u64 },
    /// A class was destroyed.
    ClassDestroyed { class_id: u64 },
}

/// One live instance: its id within the class, its owner, its metadata, an
/// optional secondary reference, and the deposit reserved while it lives.
pub struct InstanceEntry {
    /// Instance id, unique within the class.
    pub id: u64,
    /// Current owner of the instance.
    pub owner: u64,
    /// Opaque metadata, at most `MAX_METADATA_LEN` bytes.
    pub metadata: Vec<u8>,
    /// Optional reference to an account or to another instance.
    pub secondary: Option<SecondaryRef>,
    /// The account whose balance the deposit was reserved from.
    pub depositor: u64,
    /// The reserved deposit, released to the depositor when the instance burns.
    pub deposit: u64,
}

/// One class: its id, owner, policy tag, metadata, the id counter for its
/// instances, and the live instances themselves.
pub struct ClassEntry {
    /// Class id, unique in the registry.
    pub id: u64,
    /// Owner (administrator) of the class.
    pub owner: u64,
    /// Policy tag deciding who may create, mint into and destroy the class.
    pub class_type: ClassType,
    /// Opaque metadata, at most `MAX_METADATA_LEN` bytes.
    pub metadata: Vec<u8>,
    /// Number of live instances; always equal to `instances.len()`.
    pub instance_count: u64,
    /// The id the next minted instance will receive.
    pub next_instance_id: u64,
    /// The live instances of the class.
    pub instances: Vec<InstanceEntry>,
}

/// The free balance of one account.
#[derive(Clone, Copy, Debug, PartialEq, Eq, Structural)]
pub struct BalanceEntry {
    /// The account.
    pub account: u64,
    /// Its free (unreserved) balance.
    pub free: u64,
}

/// The deposit reserved for an instance whose metadata is `len` bytes long:
/// a flat base plus a per-byte charge, monotonic in `len`.
pub open spec fn spec_deposit_amount(len: nat) -> int {
    DEPOSIT_BASE + len * DEPOSIT_PER_BYTE
}

/// The deposit reserved for an instance whose metadata is `len` bytes long.
pub fn deposit_amount(len: usize) -> (r: u64)
    requires
        len <= MAX_METADATA_LEN,
    ensures
        r == spec_deposit_amount(len as nat),
{
    DEPOSIT_BASE + (len as u64) * DEPOSIT_PER_BYTE
}

} // verus!
