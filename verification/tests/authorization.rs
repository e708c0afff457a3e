use nft_registry::registry::NftRegistry;
use nft_registry::types::ClassType;
use nft_registry::types::Error;
use nft_registry::types::Origin;

const ALICE: u64 = 1;
const BOB: u64 = 2;
const CAROL: u64 = 3;
const ADMIN: u64 = 9;

fn stv(s: &str) -> Vec<u8> {
    s.as_bytes().to_vec()
}

fn funded() -> NftRegistry {
    let mut r = NftRegistry::new();
    r.endow(ALICE, 1_000_000);
    r.endow(BOB, 1_000_000);
    r.endow(ADMIN, 1_000_000);
    r
}

#[test]
fn transfer_by_non_owner_fails_and_owner_stays() {
    let mut r = funded();
    assert_eq!(r.create_class(Origin::signed(ALICE), ClassType::Marketplace, stv("c")), Ok(0));
    assert_eq!(r.mint(Origin::signed(ALICE), 0, ALICE, None, stv("x"), 1), Ok(0));
    assert_eq!(r.transfer(Origin::signed(BOB), 0, 0, BOB), Err(Error::NotPermitted));
    assert_eq!(r.instance_owner(0, 0), Some(ALICE));
    // Not even root may move someone else's instance.
    assert_eq!(r.transfer(Origin::root(ADMIN), 0, 0, BOB), Err(Error::NotPermitted));
    assert_eq!(r.instance_owner(0, 0), Some(ALICE));
}

#[test]
fn transfer_by_owner_updates_and_repeats_idempotently() {
    let mut r = funded();
    assert_eq!(r.create_class(Origin::signed(ALICE), ClassType::Marketplace, stv("c")), Ok(0));
    assert_eq!(r.mint(Origin::signed(ALICE), 0, ALICE, None, stv("x"), 1), Ok(0));
    assert_eq!(r.transfer(Origin::signed(ALICE), 0, 0, BOB), Ok(()));
    assert_eq!(r.instance_owner(0, 0), Some(BOB));
    // Repeating the transfer to the same new owner changes nothing.
    assert_eq!(r.transfer(Origin::signed(BOB), 0, 0, BOB), Ok(()));
    assert_eq!(r.instance_owner(0, 0), Some(BOB));
    assert_eq!(r.transfer(Origin::signed(BOB), 0, 0, CAROL), Ok(()));
    assert_eq!(r.instance_owner(0, 0), Some(CAROL));
}

#[test]
fn transfer_unknown_targets_fail() {
    let mut r = funded();
    assert_eq!(r.transfer(Origin::signed(ALICE), 5, 0, BOB), Err(Error::ClassUnknown));
    assert_eq!(r.create_class(Origin::signed(ALICE), ClassType::Marketplace, stv("c")), Ok(0));
    assert_eq!(r.transfer(Origin::signed(ALICE), 0, 3, BOB), Err(Error::InstanceUnknown));
}

#[test]
fn privileged_create_requires_root() {
    let mut r = funded();
    assert_eq!(
        r.create_class(Origin::signed(ALICE), ClassType::PoolShare, stv("p")),
        Err(Error::NotPermitted)
    );
    assert_eq!(r.create_class(Origin::root(ADMIN), ClassType::PoolShare, stv("p")), Ok(0));
}

#[test]
fn privileged_mint_requires_root() {
    let mut r = funded();
    assert_eq!(r.create_class(Origin::root(ADMIN), ClassType::PoolShare, stv("p")), Ok(0));
    assert_eq!(
        r.mint(Origin::signed(ALICE), 0, ALICE, None, stv("x"), 1),
        Err(Error::NotPermitted)
    );
    // The same call with root authority succeeds, to an arbitrary owner.
    assert_eq!(r.mint(Origin::root(ADMIN), 0, ALICE, None, stv("x"), 1), Ok(0));
    assert_eq!(r.instance_owner(0, 0), Some(ALICE));
}

#[test]
fn burn_by_non_owner_fails_in_public_class() {
    let mut r = funded();
    assert_eq!(r.create_class(Origin::signed(ALICE), ClassType::Marketplace, stv("c")), Ok(0));
    assert_eq!(r.mint(Origin::signed(ALICE), 0, BOB, None, stv("x"), 1), Ok(0));
    // The class owner is not the instance owner, and the class is public.
    assert_eq!(r.burn(Origin::signed(ALICE), 0, 0), Err(Error::NotPermitted));
    assert_eq!(r.burn(Origin::signed(BOB), 0, 0), Ok(()));
}

#[test]
fn burn_by_class_admin_in_privileged_class() {
    let mut r = funded();
    assert_eq!(r.create_class(Origin::root(ADMIN), ClassType::PoolShare, stv("p")), Ok(0));
    assert_eq!(r.mint(Origin::root(ADMIN), 0, BOB, None, stv("x"), 1), Ok(0));
    // In a privileged class the class administrator may burn too.
    assert_eq!(r.burn(Origin::signed(CAROL), 0, 0), Err(Error::NotPermitted));
    assert_eq!(r.burn(Origin::signed(ADMIN), 0, 0), Ok(()));
}

#[test]
fn destroy_authority_follows_the_class_type() {
    let mut r = funded();
    assert_eq!(r.create_class(Origin::signed(ALICE), ClassType::Marketplace, stv("c")), Ok(0));
    assert_eq!(r.create_class(Origin::root(ADMIN), ClassType::PoolShare, stv("p")), Ok(1));
    // A public class falls to its owner alone.
    assert_eq!(r.destroy_class(Origin::signed(BOB), 0), Err(Error::NotPermitted));
    assert_eq!(r.destroy_class(Origin::signed(ALICE), 0), Ok(()));
    // A privileged class falls to root alone.
    assert_eq!(r.destroy_class(Origin::signed(ADMIN), 1), Err(Error::NotPermitted));
    assert_eq!(r.destroy_class(Origin::root(ADMIN), 1), Ok(()));
}
