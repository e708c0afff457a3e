use nft_registry::registry::NftRegistry;
use nft_registry::types::ClassType;
use nft_registry::types::Error;
use nft_registry::types::Origin;
use nft_registry::types::SecondaryRef;

const ALICE: u64 = 1;
const BOB: u64 = 2;

/// Turns a string into a Vec
fn stv(s: &str) -> Vec<u8> {
    s.as_bytes().to_vec()
}

fn funded() -> NftRegistry {
    let mut r = NftRegistry::new();
    r.endow(ALICE, 1_000_000);
    r.endow(BOB, 1_000_000);
    r
}

#[test]
fn create_collection_works() {
    let mut r = funded();
    let metadata = stv("testing");
    assert!(r.create_class(Origin::signed(ALICE), ClassType::Marketplace, metadata).is_ok());
}

#[test]
fn mint_nft_works() {
    let mut r = funded();
    let collection_metadata = stv("testing");
    let nft_metadata = stv("testing");
    assert!(r
        .create_class(Origin::signed(ALICE), ClassType::Marketplace, collection_metadata)
        .is_ok());
    assert!(r
        .mint(
            Origin::signed(ALICE),
            0,
            ALICE,
            Some(SecondaryRef::Account(ALICE)),
            nft_metadata,
            1,
        )
        .is_ok());
}

#[test]
fn send_nft_to_minted_nft_works() {
    let mut r = funded();
    let collection_metadata = stv("testing");
    let nft_metadata = stv("testing");
    assert!(r
        .create_class(Origin::signed(ALICE), ClassType::Marketplace, collection_metadata)
        .is_ok());
    assert!(r
        .mint(
            Origin::signed(ALICE),
            0,
            ALICE,
            Some(SecondaryRef::Account(ALICE)),
            nft_metadata.clone(),
            1,
        )
        .is_ok());
    assert!(r
        .mint(
            Origin::signed(ALICE),
            0,
            ALICE,
            Some(SecondaryRef::Nft(0, 1)),
            nft_metadata,
            1,
        )
        .is_ok());
    let _ = r.transfer(Origin::signed(ALICE), 0, 0, BOB);
}

#[test]
fn mint_ids_are_consecutive() {
    let mut r = funded();
    assert_eq!(r.create_class(Origin::signed(ALICE), ClassType::Marketplace, stv("c")), Ok(0));
    assert_eq!(r.mint(Origin::signed(ALICE), 0, ALICE, None, stv("a"), 3), Ok(0));
    assert_eq!(r.mint(Origin::signed(ALICE), 0, ALICE, None, stv("b"), 1), Ok(3));
    assert_eq!(r.class_next_instance_id(0), Some(4));
    assert_eq!(r.class_instance_count(0), Some(4));
}

#[test]
fn mint_unknown_class_fails() {
    let mut r = funded();
    assert_eq!(
        r.mint(Origin::signed(ALICE), 42, ALICE, None, stv("x"), 1),
        Err(Error::ClassUnknown)
    );
}

#[test]
fn mint_quantity_out_of_range_fails() {
    let mut r = funded();
    assert!(r.create_class(Origin::signed(ALICE), ClassType::Marketplace, stv("c")).is_ok());
    assert_eq!(
        r.mint(Origin::signed(ALICE), 0, ALICE, None, stv("x"), 0),
        Err(Error::NotInRange)
    );
    assert_eq!(
        r.mint(Origin::signed(ALICE), 0, ALICE, None, stv("x"), 101),
        Err(Error::NotInRange)
    );
    assert_eq!(r.class_instance_count(0), Some(0));
}

#[test]
fn mint_without_funds_fails() {
    let mut r = NftRegistry::new();
    r.endow(ALICE, 1_000);
    assert!(r.create_class(Origin::signed(ALICE), ClassType::Marketplace, stv("c")).is_ok());
    assert_eq!(
        r.mint(Origin::signed(BOB), 0, BOB, None, stv("x"), 1),
        Err(Error::InsufficientBalance)
    );
    // A whole batch is rejected when the balance covers only part of it.
    r.endow(BOB, 15);
    assert_eq!(
        r.mint(Origin::signed(BOB), 0, BOB, None, stv("x"), 2),
        Err(Error::InsufficientBalance)
    );
    assert_eq!(r.class_instance_count(0), Some(0));
    assert_eq!(r.free_balance(BOB), 15);
}

#[test]
fn mint_over_long_metadata_fails() {
    let mut r = funded();
    assert!(r.create_class(Origin::signed(ALICE), ClassType::Marketplace, stv("c")).is_ok());
    let long = vec![7u8; 257];
    assert_eq!(
        r.mint(Origin::signed(ALICE), 0, ALICE, None, long, 1),
        Err(Error::MetadataTooLong)
    );
    assert_eq!(r.class_instance_count(0), Some(0));
}

#[test]
fn exhausted_instance_counter_rejects_mint() {
    let mut r = funded();
    assert!(r.create_class(Origin::signed(ALICE), ClassType::Marketplace, stv("c")).is_ok());
    assert_eq!(r.set_next_instance_id(0, u64::MAX), Ok(()));
    assert_eq!(
        r.mint(Origin::signed(ALICE), 0, ALICE, None, stv("x"), 1),
        Err(Error::NoAvailableInstanceId)
    );
    // The failed mint moved neither the counter nor the count.
    assert_eq!(r.class_next_instance_id(0), Some(u64::MAX));
    assert_eq!(r.class_instance_count(0), Some(0));
}

#[test]
fn exhausted_class_counter_rejects_create() {
    let mut r = funded();
    assert_eq!(r.set_next_class_id(u64::MAX), Ok(()));
    assert_eq!(
        r.create_class(Origin::signed(ALICE), ClassType::Marketplace, stv("c")),
        Err(Error::NoAvailableClassId)
    );
}

#[test]
fn counter_setters_never_move_backwards() {
    let mut r = funded();
    assert!(r.create_class(Origin::signed(ALICE), ClassType::Marketplace, stv("c")).is_ok());
    assert_eq!(r.set_next_class_id(0), Err(Error::NotInRange));
    assert_eq!(r.set_next_instance_id(0, 5), Ok(()));
    assert_eq!(r.set_next_instance_id(0, 4), Err(Error::NotInRange));
    assert_eq!(r.set_next_instance_id(9, 1), Err(Error::ClassUnknown));
    assert_eq!(r.mint(Origin::signed(ALICE), 0, ALICE, None, stv("x"), 1), Ok(5));
}
