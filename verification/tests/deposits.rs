use nft_registry::registry::NftRegistry;
use nft_registry::types::ClassType;
use nft_registry::types::Origin;
use nft_registry::types::DEPOSIT_BASE;
use nft_registry::types::DEPOSIT_PER_BYTE;

const ALICE: u64 = 1;
const BOB: u64 = 2;

fn stv(s: &str) -> Vec<u8> {
    s.as_bytes().to_vec()
}

#[test]
fn endow_accumulates() {
    let mut r = NftRegistry::new();
    assert_eq!(r.free_balance(ALICE), 0);
    r.endow(ALICE, 40);
    r.endow(ALICE, 2);
    assert_eq!(r.free_balance(ALICE), 42);
    assert_eq!(r.free_balance(BOB), 0);
}

#[test]
fn mint_reserves_the_exact_deposit() {
    let mut r = NftRegistry::new();
    r.endow(ALICE, 1_000);
    assert_eq!(r.create_class(Origin::signed(ALICE), ClassType::Marketplace, stv("c")), Ok(0));
    // "testing" is seven bytes; the deposit is the base plus one per byte.
    let per = DEPOSIT_BASE + 7 * DEPOSIT_PER_BYTE;
    assert_eq!(r.mint(Origin::signed(ALICE), 0, ALICE, None, stv("testing"), 1), Ok(0));
    assert_eq!(r.free_balance(ALICE), 1_000 - per);
    // A batch of three reserves three deposits.
    assert_eq!(r.mint(Origin::signed(ALICE), 0, ALICE, None, stv("testing"), 3), Ok(1));
    assert_eq!(r.free_balance(ALICE), 1_000 - 4 * per);
}

#[test]
fn burn_releases_the_deposit() {
    let mut r = NftRegistry::new();
    r.endow(ALICE, 500);
    assert_eq!(r.create_class(Origin::signed(ALICE), ClassType::Marketplace, stv("c")), Ok(0));
    assert_eq!(r.mint(Origin::signed(ALICE), 0, ALICE, None, stv("testing"), 1), Ok(0));
    assert_eq!(r.free_balance(ALICE), 500 - (DEPOSIT_BASE + 7 * DEPOSIT_PER_BYTE));
    assert_eq!(r.burn(Origin::signed(ALICE), 0, 0), Ok(()));
    assert_eq!(r.free_balance(ALICE), 500);
}

#[test]
fn deposit_returns_to_the_original_depositor() {
    let mut r = NftRegistry::new();
    r.endow(ALICE, 500);
    r.endow(BOB, 500);
    assert_eq!(r.create_class(Origin::signed(ALICE), ClassType::Marketplace, stv("c")), Ok(0));
    assert_eq!(r.mint(Origin::signed(ALICE), 0, ALICE, None, stv("gift"), 1), Ok(0));
    let per = DEPOSIT_BASE + 4 * DEPOSIT_PER_BYTE;
    assert_eq!(r.free_balance(ALICE), 500 - per);
    // The instance moves to BOB, the reserved deposit does not.
    assert_eq!(r.transfer(Origin::signed(ALICE), 0, 0, BOB), Ok(()));
    assert_eq!(r.burn(Origin::signed(BOB), 0, 0), Ok(()));
    assert_eq!(r.free_balance(ALICE), 500);
    assert_eq!(r.free_balance(BOB), 500);
}

#[test]
fn transfer_leaves_balances_alone() {
    let mut r = NftRegistry::new();
    r.endow(ALICE, 100);
    r.endow(BOB, 100);
    assert_eq!(r.create_class(Origin::signed(ALICE), ClassType::Marketplace, Vec::new()), Ok(0));
    assert_eq!(r.mint(Origin::signed(ALICE), 0, ALICE, None, Vec::new(), 1), Ok(0));
    let alice_after_mint = r.free_balance(ALICE);
    assert_eq!(alice_after_mint, 100 - DEPOSIT_BASE);
    assert_eq!(r.transfer(Origin::signed(ALICE), 0, 0, BOB), Ok(()));
    assert_eq!(r.free_balance(ALICE), alice_after_mint);
    assert_eq!(r.free_balance(BOB), 100);
}
