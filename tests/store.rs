use ethdwallet::initializer::{initialize_wallet, try_initialize_wallet};
use ethdwallet::safe_zone::ZKPLAIN;
use ethdwallet::store::{wallet, write_wallet, FlashStore, IMAGE_LEN, WALLET_REPEAT};
use ethdwallet::wallet::{Wallet, OFF_CRC, WALLET_SIZE};

const PASS: [u8; 8] = [1, 2, 3, 4, 5, 6, 7, 8];
const IV: [u8; 12] = [7; 12];

fn secrets() -> [[u8; 32]; 32] {
    let mut s = [[0u8; 32]; 32];
    for (i, row) in s.iter_mut().enumerate() {
        row[31] = i as u8 + 1;
    }
    s
}

fn provisioned() -> Wallet {
    initialize_wallet(PASS, IV, &secrets()).unwrap()
}

fn same_record(a: &Wallet, b: &Wallet) -> bool {
    a.initialized == b.initialized
        && a.zone.zkmagic == b.zone.zkmagic
        && a.zone.keys == b.zone.keys
        && a.zone.otp_secret == b.zone.otp_secret
        && a.chacha_iv == b.chacha_iv
        && a.addrs == b.addrs
        && a.pubkeys == b.pubkeys
}

fn copy(store: &FlashStore, i: usize) -> &[u8] {
    &store.image[i * WALLET_SIZE..(i + 1) * WALLET_SIZE]
}

#[test]
fn store_write_then_load_round_trips() {
    let w = provisioned();
    let mut store = FlashStore::new();
    write_wallet(&mut store, &w);
    let written = store.image.clone();
    let loaded = wallet(&mut store).unwrap();
    assert!(same_record(&loaded, &w));
    assert_eq!(store.image, written);
    let mut zeroed = copy(&store, 0).to_vec();
    zeroed[OFF_CRC..].copy_from_slice(&[0, 0, 0, 0]);
    assert_eq!(loaded.crc, crc32fast::hash(&zeroed));
    assert_eq!(&copy(&store, 0)[OFF_CRC..], &loaded.crc.to_le_bytes());
}

#[test]
fn store_layout_fills_sector() {
    assert_eq!(WALLET_SIZE, 3825);
    assert_eq!(WALLET_REPEAT, 34);
    assert_eq!(IMAGE_LEN, 34 * 3825);
    let store = FlashStore::new();
    assert_eq!(store.image.len(), IMAGE_LEN);
    for i in 1..WALLET_REPEAT {
        assert_eq!(copy(&store, i), copy(&store, 0));
    }
}

#[test]
fn store_factory_image_is_blank() {
    let mut store = FlashStore::new();
    let before = store.image.clone();
    let w = wallet(&mut store).unwrap();
    assert!(!w.initialized);
    assert_eq!(w.zone.zkmagic, ZKPLAIN);
    assert_eq!(w.chacha_iv, [0; 12]);
    assert_eq!(store.image, before);
}

#[test]
fn store_heals_one_corrupted_copy() {
    let w = provisioned();
    let mut store = FlashStore::new();
    write_wallet(&mut store, &w);
    let good = store.image.clone();
    let at = 5 * WALLET_SIZE + 100;
    store.image[at] ^= 0x5a;
    store.image[at + 1] ^= 0x01;
    let loaded = wallet(&mut store).unwrap();
    assert!(same_record(&loaded, &w));
    assert_eq!(store.image, good);
}

#[test]
fn store_heals_corrupted_first_copy() {
    let w = provisioned();
    let mut store = FlashStore::new();
    write_wallet(&mut store, &w);
    let good = store.image.clone();
    store.image[OFF_CRC] ^= 0xff;
    let loaded = wallet(&mut store).unwrap();
    assert!(same_record(&loaded, &w));
    assert_eq!(store.image, good);
}

#[test]
fn store_total_corruption_returns_nothing() {
    let w = provisioned();
    let mut store = FlashStore::new();
    write_wallet(&mut store, &w);
    for i in 0..WALLET_REPEAT {
        store.image[i * WALLET_SIZE + 3] ^= 0x80;
    }
    let before = store.image.clone();
    assert!(wallet(&mut store).is_none());
    assert_eq!(store.image, before);
}

#[test]
fn store_majority_wins_over_stale_copies() {
    let old = Wallet::new().seal().encode();
    let new = provisioned().seal().encode();
    let mut image = Vec::new();
    for i in 0..WALLET_REPEAT {
        image.extend_from_slice(if i < 10 { &old } else { &new });
    }
    let mut store = FlashStore::from_image(image).unwrap();
    let loaded = wallet(&mut store).unwrap();
    assert!(loaded.initialized);
    for i in 0..WALLET_REPEAT {
        assert_eq!(copy(&store, i), &new[..]);
    }
}

#[test]
fn store_tie_goes_to_lowest_index() {
    let a = Wallet::new().seal().encode();
    let b = provisioned().seal().encode();
    let mut image = Vec::new();
    for i in 0..WALLET_REPEAT {
        image.extend_from_slice(if i < WALLET_REPEAT / 2 { &a } else { &b });
    }
    let mut store = FlashStore::from_image(image).unwrap();
    let loaded = wallet(&mut store).unwrap();
    assert!(!loaded.initialized);
    for i in 0..WALLET_REPEAT {
        assert_eq!(copy(&store, i), &a[..]);
    }
}

#[test]
fn store_rejects_image_of_wrong_length() {
    assert!(FlashStore::from_image(vec![0; IMAGE_LEN - 1]).is_none());
    assert!(FlashStore::from_image(vec![0; IMAGE_LEN]).is_some());
}

#[test]
fn store_erased_image_is_unrecoverable() {
    let mut store = FlashStore::from_image(vec![0xff; IMAGE_LEN]).unwrap();
    assert!(wallet(&mut store).is_none());
}

#[test]
fn first_start_provisions_once() {
    let mut store = FlashStore::new();
    assert_eq!(try_initialize_wallet(&mut store, PASS, IV, &secrets()), Ok(true));
    let w = wallet(&mut store).unwrap();
    assert!(w.initialized);
    assert!(same_record(&w, &provisioned()));
    let image = store.image.clone();
    assert_eq!(try_initialize_wallet(&mut store, [9; 8], [1; 12], &secrets()), Ok(false));
    assert_eq!(store.image, image);
}

#[test]
fn first_start_fails_on_unreadable_store() {
    let mut store = FlashStore::from_image(vec![0xff; IMAGE_LEN]).unwrap();
    assert_eq!(
        try_initialize_wallet(&mut store, PASS, IV, &secrets()),
        Err(ethdwallet::error::Error::HalInitError)
    );
}

#[test]
fn store_heals_copy_holding_another_valid_record() {
    let w = provisioned();
    let mut store = FlashStore::new();
    write_wallet(&mut store, &w);
    let good = store.image.clone();
    let other = Wallet::new().seal().encode();
    store.image[0..WALLET_SIZE].copy_from_slice(&other);
    let loaded = wallet(&mut store).unwrap();
    assert!(same_record(&loaded, &w));
    assert_eq!(store.image, good);
}

#[test]
fn first_start_on_provisioned_store_only_heals() {
    let mut store = FlashStore::new();
    write_wallet(&mut store, &provisioned());
    let good = store.image.clone();
    store.image[2 * WALLET_SIZE + 40] ^= 0x10;
    assert_eq!(try_initialize_wallet(&mut store, [9; 8], [1; 12], &secrets()), Ok(false));
    assert_eq!(store.image, good);
}
