//! General properties of the registry, proved once and for all from the
//! operations' contracts: id monotonicity, the count invariant, the destroy
//! guard, transfer idempotency and counter exhaustion.

use vstd::prelude::*;

use crate::auth::spec_can_create;
use crate::auth::spec_can_destroy;
use crate::auth::spec_can_mint;
use crate::registry::burn_updates;
use crate::registry::class_idx;
use crate::registry::class_of;
use crate::registry::create_class_outcome;
use crate::registry::create_class_updates;
use crate::registry::destroy_class_outcome;
use crate::registry::has_class;
use crate::registry::has_instance;
use crate::registry::instance_idx;
use crate::registry::instance_of;
use crate::registry::lemma_class_idx_is;
use crate::registry::lemma_instance_idx_is;
use crate::registry::mint_outcome;
use crate::registry::mint_updates;
use crate::registry::transfer_outcome;
use crate::registry::transfer_updates;
use crate::registry::NftRegistry;
use crate::types::ClassEntry;
use crate::types::ClassType;
use crate::types::Error;
use crate::types::InstanceEntry;
use crate::types::Origin;
use crate::types::SecondaryRef;
use crate::types::MAX_METADATA_LEN;
use crate::types::MAX_MINT_PER_CALL;

verus! {

/// Observational equality of two instance records.
pub open spec fn instance_equiv(a: InstanceEntry, b: InstanceEntry) -> bool {
    &&& a.id == b.id
    &&& a.owner == b.owner
    &&& a.metadata@ == b.metadata@
    &&& a.secondary == b.secondary
    &&& a.depositor == b.depositor
    &&& a.deposit == b.deposit
}

/// Observational equality of two class records.
pub open spec fn class_equiv(a: ClassEntry, b: ClassEntry) -> bool {
    &&& a.id == b.id
    &&& a.owner == b.owner
    &&& a.class_type == b.class_type
    &&& a.metadata@ == b.metadata@
    &&& a.instance_count == b.instance_count
    &&& a.next_instance_id == b.next_instance_id
    &&& a.instances@.len() == b.instances@.len()
    &&& forall|j: int|
        0 <= j < a.instances@.len() ==> instance_equiv(
            #[trigger] a.instances@[j],
            b.instances@[j],
        )
}

/// Observational equality of two registry states: everything a caller can
/// read through the registry's functions is the same.
pub open spec fn state_equiv(a: NftRegistry, b: NftRegistry) -> bool {
    &&& a.next_class_id == b.next_class_id
    &&& a.total_issuance == b.total_issuance
    &&& a.balances@ == b.balances@
    &&& a.classes@.len() == b.classes@.len()
    &&& forall|i: int|
        0 <= i < a.classes@.len() ==> class_equiv(#[trigger] a.classes@[i], b.classes@[i])
}

/// A permitted creation with metadata within the bound succeeds whenever
/// the class-id counter is not exhausted, and returns the counter's value.
pub proof fn lemma_valid_create_succeeds(
    s: NftRegistry,
    caller: Origin,
    ct: ClassType,
    m: Seq<u8>,
)
    requires
        spec_can_create(caller, ct),
        m.len() <= MAX_METADATA_LEN,
        s.next_class_id < u64::MAX,
    ensures
        create_class_outcome(s, caller, ct, m) == Ok::<u64, Error>(s.next_class_id),
{
}

/// Two successive successful class creations hand out strictly increasing
/// ids: the second id is exactly one above the first.
pub proof fn lemma_class_ids_strictly_increase(
    s0: NftRegistry,
    s1: NftRegistry,
    s2: NftRegistry,
    caller1: Origin,
    ct1: ClassType,
    m1: Seq<u8>,
    caller2: Origin,
    ct2: ClassType,
    m2: Seq<u8>,
    id1: u64,
    id2: u64,
)
    requires
        create_class_outcome(s0, caller1, ct1, m1) == Ok::<u64, Error>(id1),
        create_class_updates(s0, s1, caller1, ct1, m1),
        create_class_outcome(s1, caller2, ct2, m2) == Ok::<u64, Error>(id2),
        create_class_updates(s1, s2, caller2, ct2, m2),
    ensures
        id2 == id1 + 1,
{
}

/// A permitted creation whose metadata exceeds the bound always fails with
/// `MetadataTooLong`; together with the operations' no-effect-on-error
/// contract, no class id is consumed by it.
pub proof fn lemma_long_metadata_rejected(
    s: NftRegistry,
    caller: Origin,
    ct: ClassType,
    m: Seq<u8>,
)
    requires
        spec_can_create(caller, ct),
        m.len() > MAX_METADATA_LEN,
    ensures
        create_class_outcome(s, caller, ct, m) == Err::<u64, Error>(Error::MetadataTooLong),
{
}

/// In a well-formed registry every class's `instance_count` equals the
/// number of its live instances.
pub proof fn lemma_instance_count_is_live_count(s: NftRegistry, class_id: u64)
    requires
        s.wf(),
        has_class(s.classes@, class_id),
    ensures
        class_of(s.classes@, class_id).instance_count == class_of(
            s.classes@,
            class_id,
        ).instances@.len(),
{
    let i = class_idx(s.classes@, class_id);
    assert(0 <= i < s.classes@.len() && s.classes@[i].id == class_id);
    assert(s.classes@[i].wf());
}

/// Minting `quantity` instances and then burning one of them leaves the
/// class's count exactly `quantity - 1` above where it started.
pub proof fn lemma_mint_burn_restores_count(
    s0: NftRegistry,
    s1: NftRegistry,
    s2: NftRegistry,
    caller: Origin,
    class_id: u64,
    owner: u64,
    secondary: Option<SecondaryRef>,
    metadata: Seq<u8>,
    quantity: u64,
    instance_id: u64,
)
    requires
        s0.wf(),
        s1.wf(),
        s2.wf(),
        has_class(s0.classes@, class_id),
        mint_updates(s0, s1, caller, class_id, owner, secondary, metadata, quantity),
        burn_updates(s1, s2, class_id, instance_id),
    ensures
        class_of(s2.classes@, class_id).instance_count == class_of(
            s0.classes@,
            class_id,
        ).instance_count + quantity - 1,
{
    let ci = class_idx(s0.classes@, class_id);
    assert(0 <= ci < s0.classes@.len() && s0.classes@[ci].id == class_id);
    lemma_class_idx_is(s1.classes@, ci);
    lemma_class_idx_is(s2.classes@, ci);
}

/// A transfer attempted by anyone but the instance's owner always fails
/// with `NotPermitted`; with the no-effect-on-error contract, the owner
/// stays unchanged.
pub proof fn lemma_transfer_by_non_owner_rejected(
    s: NftRegistry,
    caller: Origin,
    class_id: u64,
    instance_id: u64,
    new_owner: u64,
)
    requires
        has_class(s.classes@, class_id),
        has_instance(class_of(s.classes@, class_id).instances@, instance_id),
        caller.account != instance_of(
            class_of(s.classes@, class_id).instances@,
            instance_id,
        ).owner,
    ensures
        transfer_outcome(s, caller, class_id, instance_id, new_owner) == Err::<(), Error>(
            Error::NotPermitted,
        ),
{
}

/// A transfer requested by the instance's current owner always succeeds.
pub proof fn lemma_owner_transfer_succeeds(
    s: NftRegistry,
    caller: Origin,
    class_id: u64,
    instance_id: u64,
    new_owner: u64,
)
    requires
        has_class(s.classes@, class_id),
        has_instance(class_of(s.classes@, class_id).instances@, instance_id),
        caller.account == instance_of(
            class_of(s.classes@, class_id).instances@,
            instance_id,
        ).owner,
    ensures
        transfer_outcome(s, caller, class_id, instance_id, new_owner) == Ok::<(), Error>(()),
{
}

/// A transfer by the owner succeeds, and repeating it to the same new owner
/// (now acting as that owner) succeeds too and changes nothing further.
pub proof fn lemma_transfer_idempotent(
    s0: NftRegistry,
    s1: NftRegistry,
    s2: NftRegistry,
    class_id: u64,
    instance_id: u64,
    new_owner: u64,
)
    requires
        s0.wf(),
        s1.wf(),
        has_class(s0.classes@, class_id),
        has_instance(class_of(s0.classes@, class_id).instances@, instance_id),
        transfer_updates(s0, s1, class_id, instance_id, new_owner),
        transfer_updates(s1, s2, class_id, instance_id, new_owner),
    ensures
        state_equiv(s2, s1),
{
    let ci = class_idx(s0.classes@, class_id);
    assert(0 <= ci < s0.classes@.len() && s0.classes@[ci].id == class_id);
    let c = s0.classes@[ci];
    let ii = instance_idx(c.instances@, instance_id);
    assert(0 <= ii < c.instances@.len() && c.instances@[ii].id == instance_id);
    lemma_class_idx_is(s1.classes@, ci);
    assert(s1.classes@[ci].wf());
    lemma_instance_idx_is(s1.classes@[ci].instances@, ii);
    assert(class_idx(s1.classes@, class_id) == ci);
    assert(instance_idx(s1.classes@[ci].instances@, instance_id) == ii);
    assert forall|i: int| 0 <= i < s2.classes@.len() implies class_equiv(
        #[trigger] s2.classes@[i],
        s1.classes@[i],
    ) by {
        if i != ci {
            assert(s2.classes@[i] == s1.classes@[i]);
        } else {
            assert forall|j: int| 0 <= j < s2.classes@[i].instances@.len() implies instance_equiv(
                #[trigger] s2.classes@[i].instances@[j],
                s1.classes@[i].instances@[j],
            ) by {
                if j != ii {
                    assert(s2.classes@[i].instances@[j] == s1.classes@[i].instances@[j]);
                }
            }
        }
    }
}

/// A class that still holds instances cannot be destroyed.
pub proof fn lemma_destroy_nonempty_rejected(s: NftRegistry, caller: Origin, class_id: u64)
    requires
        has_class(s.classes@, class_id),
        class_of(s.classes@, class_id).instance_count > 0,
    ensures
        destroy_class_outcome(s, caller, class_id) == Err::<(), Error>(Error::ClassNotEmpty),
{
}

/// An empty class is destroyed whenever the caller holds the authority its
/// type demands.
pub proof fn lemma_destroy_empty_permitted(s: NftRegistry, caller: Origin, class_id: u64)
    requires
        has_class(s.classes@, class_id),
        class_of(s.classes@, class_id).instance_count == 0,
        spec_can_destroy(
            caller,
            class_of(s.classes@, class_id).class_type,
            class_of(s.classes@, class_id).owner,
        ),
    ensures
        destroy_class_outcome(s, caller, class_id) == Ok::<(), Error>(()),
{
}

/// Burning the last instance of a class makes a permitted destroy succeed.
pub proof fn lemma_burn_last_then_destroy(
    s0: NftRegistry,
    s1: NftRegistry,
    caller: Origin,
    class_id: u64,
    instance_id: u64,
)
    requires
        s0.wf(),
        s1.wf(),
        has_class(s0.classes@, class_id),
        class_of(s0.classes@, class_id).instance_count == 1,
        burn_updates(s0, s1, class_id, instance_id),
        spec_can_destroy(
            caller,
            class_of(s0.classes@, class_id).class_type,
            class_of(s0.classes@, class_id).owner,
        ),
    ensures
        destroy_class_outcome(s1, caller, class_id) == Ok::<(), Error>(()),
{
    let ci = class_idx(s0.classes@, class_id);
    assert(0 <= ci < s0.classes@.len() && s0.classes@[ci].id == class_id);
    lemma_class_idx_is(s1.classes@, ci);
}

/// With the instance-id counter of a class at its maximum, a mint that
/// passes every other check still fails with `NoAvailableInstanceId`; with
/// the no-effect-on-error contract, neither the counter nor the count moves.
pub proof fn lemma_exhausted_counter_rejects_mint(
    s: NftRegistry,
    caller: Origin,
    class_id: u64,
    owner: u64,
    metadata: Seq<u8>,
    quantity: u64,
)
    requires
        has_class(s.classes@, class_id),
        metadata.len() <= MAX_METADATA_LEN,
        spec_can_mint(caller, class_of(s.classes@, class_id).class_type),
        1 <= quantity <= MAX_MINT_PER_CALL,
        class_of(s.classes@, class_id).next_instance_id == u64::MAX,
    ensures
        mint_outcome(s, caller, class_id, owner, metadata, quantity) == Err::<u64, Error>(
            Error::NoAvailableInstanceId,
        ),
{
}

} // verus!
