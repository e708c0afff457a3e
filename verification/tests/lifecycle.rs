use nft_registry::registry::NftRegistry;
use nft_registry::types::ClassType;
use nft_registry::types::Error;
use nft_registry::types::Event;
use nft_registry::types::Origin;

const ALICE: u64 = 1;
const BOB: u64 = 2;
const ADMIN: u64 = 9;

fn stv(s: &str) -> Vec<u8> {
    s.as_bytes().to_vec()
}

fn funded() -> NftRegistry {
    let mut r = NftRegistry::new();
    r.endow(ALICE, 1_000_000);
    r.endow(BOB, 1_000_000);
    r.endow(ADMIN, 1_000_000);
    r
}

#[test]
fn class_ids_strictly_increase() {
    let mut r = funded();
    assert_eq!(r.create_class(Origin::signed(ALICE), ClassType::Marketplace, stv("a")), Ok(0));
    assert_eq!(r.create_class(Origin::signed(BOB), ClassType::Marketplace, stv("b")), Ok(1));
    assert_eq!(r.create_class(Origin::root(ADMIN), ClassType::PoolShare, stv("c")), Ok(2));
}

#[test]
fn long_metadata_rejected_without_consuming_an_id() {
    let mut r = funded();
    let long = vec![0u8; 257];
    assert_eq!(
        r.create_class(Origin::signed(ALICE), ClassType::Marketplace, long),
        Err(Error::MetadataTooLong)
    );
    // The failed create allocated nothing: the next one still gets id 0.
    assert_eq!(
        r.create_class(Origin::signed(ALICE), ClassType::Marketplace, vec![0u8; 256]),
        Ok(0)
    );
}

#[test]
fn instance_count_tracks_mints_and_burns() {
    let mut r = funded();
    assert_eq!(r.create_class(Origin::signed(ALICE), ClassType::Marketplace, stv("c")), Ok(0));
    assert_eq!(r.class_instance_count(0), Some(0));
    assert_eq!(r.mint(Origin::signed(ALICE), 0, ALICE, None, stv("x"), 3), Ok(0));
    assert_eq!(r.class_instance_count(0), Some(3));
    assert_eq!(r.burn(Origin::signed(ALICE), 0, 1), Ok(()));
    assert_eq!(r.class_instance_count(0), Some(2));
    assert!(!r.instance_exists(0, 1));
    assert!(r.instance_exists(0, 0));
    assert!(r.instance_exists(0, 2));
    // Mint one more and burn it again: the count returns to its prior value.
    assert_eq!(r.mint(Origin::signed(ALICE), 0, ALICE, None, stv("y"), 1), Ok(3));
    assert_eq!(r.class_instance_count(0), Some(3));
    assert_eq!(r.burn(Origin::signed(ALICE), 0, 3), Ok(()));
    assert_eq!(r.class_instance_count(0), Some(2));
}

#[test]
fn destroy_guarded_by_emptiness() {
    let mut r = funded();
    assert_eq!(r.create_class(Origin::signed(ALICE), ClassType::Marketplace, stv("c")), Ok(0));
    assert_eq!(r.mint(Origin::signed(ALICE), 0, ALICE, None, stv("x"), 2), Ok(0));
    assert_eq!(r.destroy_class(Origin::signed(ALICE), 0), Err(Error::ClassNotEmpty));
    assert_eq!(r.burn(Origin::signed(ALICE), 0, 0), Ok(()));
    assert_eq!(r.destroy_class(Origin::signed(ALICE), 0), Err(Error::ClassNotEmpty));
    assert_eq!(r.burn(Origin::signed(ALICE), 0, 1), Ok(()));
    assert_eq!(r.destroy_class(Origin::signed(ALICE), 0), Ok(()));
    assert!(!r.class_exists(0));
    assert_eq!(r.destroy_class(Origin::signed(ALICE), 0), Err(Error::ClassUnknown));
}

#[test]
fn end_to_end_public_and_privileged() {
    let mut r = funded();
    // A public class for ALICE and a privileged one created by root.
    assert_eq!(r.create_class(Origin::signed(ALICE), ClassType::Marketplace, stv("c1")), Ok(0));
    assert_eq!(r.create_class(Origin::root(ADMIN), ClassType::PoolShare, stv("c2")), Ok(1));
    // Twenty units into the public class, owned by ALICE.
    assert_eq!(r.mint(Origin::signed(ALICE), 0, ALICE, None, stv("unit"), 20), Ok(0));
    assert_eq!(r.class_instance_count(0), Some(20));
    // Hand one to BOB, who burns it.
    assert_eq!(r.transfer(Origin::signed(ALICE), 0, 0, BOB), Ok(()));
    assert_eq!(r.instance_owner(0, 0), Some(BOB));
    assert_eq!(r.destroy_class(Origin::signed(ALICE), 0), Err(Error::ClassNotEmpty));
    assert_eq!(r.burn(Origin::signed(BOB), 0, 0), Ok(()));
    // Still not empty: the other nineteen remain.
    assert_eq!(r.destroy_class(Origin::signed(ALICE), 0), Err(Error::ClassNotEmpty));
    for id in 1..20 {
        assert_eq!(r.burn(Origin::signed(ALICE), 0, id), Ok(()));
    }
    assert_eq!(r.destroy_class(Origin::signed(ALICE), 0), Ok(()));
    assert!(!r.class_exists(0));
    assert!(r.class_exists(1));
}

#[test]
fn one_event_per_successful_transition() {
    let mut r = funded();
    assert_eq!(r.create_class(Origin::signed(ALICE), ClassType::Marketplace, stv("c")), Ok(0));
    assert_eq!(r.mint(Origin::signed(ALICE), 0, ALICE, None, stv("x"), 2), Ok(0));
    // A rejected operation emits nothing.
    assert_eq!(r.transfer(Origin::signed(BOB), 0, 0, BOB), Err(Error::NotPermitted));
    assert_eq!(r.transfer(Origin::signed(ALICE), 0, 0, BOB), Ok(()));
    assert_eq!(r.burn(Origin::signed(BOB), 0, 0), Ok(()));
    assert_eq!(r.burn(Origin::signed(ALICE), 0, 1), Ok(()));
    assert_eq!(r.destroy_class(Origin::signed(ALICE), 0), Ok(()));
    assert_eq!(
        r.events,
        vec![
            Event::ClassCreated { class_id: 0, owner: ALICE },
            Event::Minted { class_id: 0, first_instance_id: 0, quantity: 2, owner: ALICE },
            Event::Transferred { class_id: 0, instance_id: 0, new_owner: BOB },
            Event::Burned { class_id: 0, instance_id: 0 },
            Event::Burned { class_id: 0, instance_id: 1 },
            Event::ClassDestroyed { class_id: 0 },
        ]
    );
}

#[test]
fn getters_report_the_records() {
    let mut r = funded();
    assert_eq!(r.create_class(Origin::signed(ALICE), ClassType::Marketplace, stv("c")), Ok(0));
    assert_eq!(r.class_owner(0), Some(ALICE));
    assert_eq!(r.class_owner(1), None);
    assert_eq!(r.class_next_instance_id(0), Some(0));
    assert_eq!(r.instance_owner(0, 0), None);
    assert_eq!(r.mint(Origin::signed(ALICE), 0, BOB, None, stv("x"), 1), Ok(0));
    assert_eq!(r.instance_owner(0, 0), Some(BOB));
}
