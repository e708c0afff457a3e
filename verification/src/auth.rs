//! The authorization policy: pure functions deciding, from the caller and
//! the class type alone, whether an operation may proceed. They are
//! evaluated before any registry mutation.

use vstd::prelude::*;

use crate::types::ClassType;
use crate::types::Origin;

verus! {

/// Whether `caller` may create a class of type `class_type`: privileged
/// types demand root authority, public types are open to any signed caller.
pub open spec fn spec_can_create(caller: Origin, class_type: ClassType) -> bool {
    class_type.spec_privileged() ==> caller.root
}

/// Whether `caller` may create a class of type `class_type`.
#[verifier::when_used_as_spec(spec_can_create)]
pub fn can_create(caller: Origin, class_type: ClassType) -> (r: bool)
    ensures
        r == spec_can_create(caller, class_type),
{
    !class_type.privileged() || caller.root
}

/// Whether `caller` may mint into a class of type `class_type`: privileged
/// types demand root authority, public types are open to any signed caller.
pub open spec fn spec_can_mint(caller: Origin, class_type: ClassType) -> bool {
    class_type.spec_privileged() ==> caller.root
}

/// Whether `caller` may mint into a class of type `class_type`.
#[verifier::when_used_as_spec(spec_can_mint)]
pub fn can_mint(caller: Origin, class_type: ClassType) -> (r: bool)
    ensures
        r == spec_can_mint(caller, class_type),
{
    !class_type.privileged() || caller.root
}

/// Whether `caller` may transfer an instance owned by `instance_owner`:
/// only the current owner may, with no delegation.
pub open spec fn spec_can_transfer(caller: Origin, instance_owner: u64) -> bool {
    caller.account == instance_owner
}

/// Whether `caller` may transfer an instance owned by `instance_owner`.
#[verifier::when_used_as_spec(spec_can_transfer)]
pub fn can_transfer(caller: Origin, instance_owner: u64) -> (r: bool)
    ensures
        r == spec_can_transfer(caller, instance_owner),
{
    caller.account == instance_owner
}

/// Whether `caller` may burn an instance owned by `instance_owner` in a
/// class of type `class_type` owned by `class_owner`: the instance owner
/// always may, and for privileged classes the class administrator may too.
pub open spec fn spec_can_burn(
    caller: Origin,
    class_type: ClassType,
    class_owner: u64,
    instance_owner: u64,
) -> bool {
    ||| caller.account == instance_owner
    ||| class_type.spec_privileged() && caller.account == class_owner
}

/// Whether `caller` may burn an instance owned by `instance_owner`.
#[verifier::when_used_as_spec(spec_can_burn)]
pub fn can_burn(
    caller: Origin,
    class_type: ClassType,
    class_owner: u64,
    instance_owner: u64,
) -> (r: bool)
    ensures
        r == spec_can_burn(caller, class_type, class_owner, instance_owner),
{
    caller.account == instance_owner || (class_type.privileged() && caller.account == class_owner)
}

/// Whether `caller` may destroy a class of type `class_type` owned by
/// `class_owner`: the owner for public types, root for privileged types.
pub open spec fn spec_can_destroy(
    caller: Origin,
    class_type: ClassType,
    class_owner: u64,
) -> bool {
    if class_type.spec_privileged() {
        caller.root
    } else {
        caller.account == class_owner
    }
}

/// Whether `caller` may destroy a class of type `class_type` owned by
/// `class_owner`.
#[verifier::when_used_as_spec(spec_can_destroy)]
pub fn can_destroy(caller: Origin, class_type: ClassType, class_owner: u64) -> (r: bool)
    ensures
        r == spec_can_destroy(caller, class_type, class_owner),
{
    if class_type.privileged() {
        caller.root
    } else {
        caller.account == class_owner
    }
}

} // verus!
