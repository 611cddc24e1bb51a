use forest_chat::db::{
    check_password, dm_key, millis_or_zero, name_available, sign_in_check, generate_salt, generate_token, hash_password, is_admin_role,
    new_password_record, now_ms, password_record, room_statuses, salt_from_seed, token_from_seed,
};
use sha2::{Digest, Sha256};

#[test]
fn test_password_hashing() {
    let salt = "mysalt123";
    let h1 = hash_password("secretpass", salt);
    let h2 = hash_password("secretpass", salt);
    let h3 = hash_password("different", salt);
    assert_eq!(h1, h2);
    assert_ne!(h1, h3);
}

#[test]
fn a_password_hash_is_the_hex_sha256_of_salt_dollar_password() {
    let expected = hex::encode(Sha256::digest(b"mysalt123$secretpass"));
    let h = hash_password("secretpass", "mysalt123");
    assert_eq!(h, expected);
    assert_eq!(h.len(), 64);
    assert!(h.chars().all(|c| c.is_ascii_hexdigit() && !c.is_ascii_uppercase()));
}

#[test]
fn a_direct_chat_has_one_key_whichever_side_asks() {
    assert_eq!(dm_key("alice", "bob"), "alice|bob");
    assert_eq!(dm_key("bob", "alice"), "alice|bob");
    assert_eq!(dm_key("zed", "zed"), "zed|zed");
    assert_eq!(dm_key("Bob", "alice"), "Bob|alice");
}

#[test]
fn salts_and_tokens_come_from_the_seed() {
    let s = salt_from_seed("alice", 42);
    let expected = hex::encode(&Sha256::digest(b"alice42salt_seed")[..8]);
    assert_eq!(s, expected);
    assert_eq!(s.len(), 16);
    let t = token_from_seed("alice", 42);
    assert_eq!(t, hex::encode(Sha256::digest(b"alice42auth_token_key")));
    assert_eq!(generate_salt("alice").len(), 16);
    assert_eq!(generate_token("alice").len(), 64);
}

#[test]
fn a_recorded_password_checks_and_a_wrong_one_does_not() {
    let record = new_password_record("alice", "password123");
    assert_eq!(record.matches('$').count(), 1);
    assert_eq!(check_password(&record, "password123"), Ok(()));
    assert_eq!(check_password(&record, "wrong_pw"), Err("Incorrect password.".to_string()));
}

#[test]
fn a_record_without_one_dollar_is_corrupted() {
    assert_eq!(check_password("nodollar", "x"), Err("Corrupted account data.".to_string()));
    assert_eq!(check_password("a$b$c", "x"), Err("Corrupted account data.".to_string()));
    let record = password_record("salt", &hash_password("pw", "salt"));
    assert_eq!(record, format!("salt${}", hash_password("pw", "salt")));
    assert_eq!(check_password(&record, "pw"), Ok(()));
}

#[test]
fn creators_and_admins_administer() {
    assert!(is_admin_role("creator"));
    assert!(is_admin_role("admin"));
    assert!(!is_admin_role("member"));
    assert!(!is_admin_role("Admin"));
}

#[test]
fn room_statuses_group_a_users_rooms() {
    let all = vec!["general".to_string(), "rust-dev".to_string(), "ops".to_string()];
    let rows = vec![
        ("general".to_string(), "member".to_string()),
        ("rust-dev".to_string(), "creator".to_string()),
        ("ops".to_string(), "admin".to_string()),
        ("rust-dev".to_string(), "member".to_string()),
    ];
    let (a, joined, pending, admin) = room_statuses(all.clone(), &rows, vec!["x".to_string()]);
    assert_eq!(a, all);
    assert_eq!(joined, vec!["general", "rust-dev", "ops"]);
    assert_eq!(pending, vec!["x"]);
    assert_eq!(admin, vec!["rust-dev", "ops"]);

    let (_, joined, _, admin) = room_statuses(vec![], &vec![], vec![]);
    assert_eq!(joined, vec!["general"]);
    assert!(admin.is_empty());
}

#[test]
fn the_clock_is_past_the_epoch() {
    assert!(now_ms() > 1_600_000_000_000);
}

#[test]
fn a_clock_reading_becomes_a_stamp() {
    assert_eq!(millis_or_zero(Some(1_700_000_000_123)), 1_700_000_000_123);
    assert_eq!(millis_or_zero(None), 0);
    assert_eq!(millis_or_zero(Some(u64::MAX as u128)), -1);
}

#[test]
fn sign_up_and_sign_in_answer_from_the_account() {
    assert_eq!(name_available(false), Ok(()));
    assert_eq!(name_available(true), Err("Username is already taken.".to_string()));
    let record = new_password_record("alice", "pw123");
    assert_eq!(sign_in_check(Some(&record), "pw123"), Ok(()));
    assert_eq!(sign_in_check(Some(&record), "nope"), Err("Incorrect password.".to_string()));
    assert_eq!(
        sign_in_check(None, "pw123"),
        Err("Account not found. Please create an account.".to_string())
    );
}
