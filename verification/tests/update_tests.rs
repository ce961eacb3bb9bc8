use db_utils::encrypt::XorEncryptor;
use db_utils::types::{Entry, EntryTag, UpdateEntry};
use db_utils::update::{expiry_at, expiry_timestamp, hash_lock_info, prepare_update, prepare_update_at};
use db_utils::KvError;

fn update(category: &str, name: &str, value: &[u8], expire_ms: Option<i64>) -> UpdateEntry {
    UpdateEntry {
        entry: Entry {
            category: String::from(category),
            name: String::from(name),
            value: value.to_vec(),
            tags: None,
        },
        expire_ms,
    }
}

// An independent FNV-1a oracle for the lock-token tests.
fn fnv1a(h: u64, bytes: &[u8]) -> u64 {
    let mut acc = h;
    for b in bytes {
        acc = (acc ^ (*b as u64)).wrapping_mul(0x100000001b3);
    }
    acc
}

#[test]
fn lock_token_is_deterministic() {
    let a = update("cat", "name", b"payload one", Some(5));
    let b = update("cat", "name", b"another payload", None);
    let t1 = hash_lock_info(7, &a);
    let t2 = hash_lock_info(7, &a);
    let t3 = hash_lock_info(7, &b);
    // Equal (profile, category, name) triples agree, whatever else the
    // entries hold.
    assert_eq!(t1, t2);
    assert_eq!(t1, t3);
}

#[test]
fn lock_token_matches_fixed_algorithm() {
    let a = update("cat", "name", b"v", None);
    let mut h = fnv1a(0xcbf29ce484222325, &7u64.to_le_bytes());
    h = fnv1a(h, b"cat");
    h = fnv1a(h, b"name");
    assert_eq!(hash_lock_info(7, &a), h as i64);
}

#[test]
fn lock_token_depends_on_the_triple() {
    let a = update("cat", "name", b"v", None);
    let t_a = hash_lock_info(7, &a);
    assert_ne!(t_a, hash_lock_info(8, &a));
    assert_ne!(t_a, hash_lock_info(7, &update("cat", "other", b"v", None)));
    assert_ne!(t_a, hash_lock_info(7, &update("other", "name", b"v", None)));
}

#[test]
fn expiry_is_absolute_or_overflows() {
    assert_eq!(expiry_at(1_000, 25), Ok(1_025));
    assert_eq!(expiry_at(i64::MAX, 1), Err(KvError::Timestamp));
    assert_eq!(expiry_at(i64::MIN, -1), Err(KvError::Timestamp));
}

#[test]
fn prepare_preserves_order_and_encrypts() {
    let key = XorEncryptor { key: 0x55, cap: 64 };
    let entries = vec![
        update("c1", "n1", b"first", None),
        update("c2", "n2", b"second", Some(25)),
        update("c3", "n3", b"third", None),
    ];
    let prepared = prepare_update_at(9, 1_000, &key, entries).unwrap();
    assert_eq!(prepared.len(), 3);
    let expected_categories = [b"c1", b"c2", b"c3"];
    let plain_values: [&[u8]; 3] = [b"first", b"second", b"third"];
    for (i, p) in prepared.iter().enumerate() {
        assert_eq!(p.profile_id, 9);
        let decrypted: Vec<u8> = p.enc_entry.category.iter().map(|b| b ^ 0x55).collect();
        assert_eq!(decrypted, expected_categories[i].to_vec());
        // The ciphertext differs from the plaintext.
        assert_ne!(p.enc_entry.value, plain_values[i].to_vec());
    }
    assert_eq!(prepared[0].expire_ms, None);
    assert_eq!(prepared[1].expire_ms, Some(1_025));
    assert_eq!(prepared[2].expire_ms, None);
}

#[test]
fn prepare_is_all_or_nothing() {
    // The capability refuses plaintexts longer than eight bytes, so the
    // second request fails and the whole batch aborts.
    let key = XorEncryptor { key: 0x55, cap: 8 };
    let entries = vec![
        update("c1", "n1", b"ok", None),
        update("c2", "n2", b"far too long for cap", None),
        update("c3", "n3", b"ok", None),
    ];
    let r = prepare_update_at(9, 1_000, &key, entries);
    assert!(r.is_err());
    assert_eq!(r.err(), Some(KvError::Encryption));
}

#[test]
fn prepare_reports_timestamp_overflow() {
    let key = XorEncryptor { key: 0x55, cap: 64 };
    let entries = vec![update("c", "n", b"v", Some(1))];
    let r = prepare_update_at(9, i64::MAX, &key, entries);
    assert_eq!(r.err(), Some(KvError::Timestamp));
}

#[test]
fn prepare_keeps_encrypted_tags() {
    let key = XorEncryptor { key: 0x01, cap: 64 };
    let mut u = update("c", "n", b"v", None);
    u.entry.tags = Some(vec![EntryTag {
        name: String::from("t"),
        value: String::from("w"),
    }]);
    let prepared = prepare_update_at(1, 0, &key, vec![u]).unwrap();
    let tags = prepared[0].enc_tags.as_ref().unwrap();
    assert_eq!(tags.len(), 1);
    assert_eq!(tags[0].name, vec![b't' ^ 0x01]);
    assert_eq!(tags[0].value, vec![b'w' ^ 0x01]);
}

#[test]
fn expiry_timestamp_from_now_is_representable() {
    let r = expiry_timestamp(60_000);
    assert!(r.is_ok());
}

#[test]
fn prepare_update_encrypts_against_the_clock() {
    let key = XorEncryptor { key: 0x55, cap: 64 };
    let entries = vec![
        update("c1", "n1", b"first", None),
        update("c2", "n2", b"second", None),
    ];
    let prepared = prepare_update(3, &key, entries).unwrap();
    assert_eq!(prepared.len(), 2);
    assert_eq!(prepared[0].profile_id, 3);
    let decrypted: Vec<u8> = prepared[1].enc_entry.value.iter().map(|b| b ^ 0x55).collect();
    assert_eq!(decrypted, b"second".to_vec());
    assert_eq!(prepared[0].expire_ms, None);
}

#[test]
fn empty_batch_prepares_to_nothing() {
    let key = XorEncryptor { key: 0x55, cap: 64 };
    let prepared = prepare_update(1, &key, Vec::new()).unwrap();
    assert!(prepared.is_empty());
    let prepared = prepare_update_at(1, 0, &key, Vec::new()).unwrap();
    assert!(prepared.is_empty());
}

#[test]
fn zero_offset_expiry_always_succeeds() {
    assert!(expiry_timestamp(0).is_ok());
    assert_eq!(expiry_at(i64::MAX, 0), Ok(i64::MAX));
}
